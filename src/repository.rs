use vstd::prelude::*;
use crate::article::{Article, ArticleId, Timestamp};
use crate::codec::{all_render, decoded, encoded, now, parse_document, render_document, renders};
use crate::document::{keys_unique, model_of, remove_model, set_entry_model, DocumentModel, FileScheme};
use crate::error::RepoError;

verus! {

#[verifier::external_type_specification]
#[verifier::external_body]
#[verifier::reject_recursive_types(T)]
pub struct ExRwLock<T: ?Sized>(std::sync::RwLock<T>);

pub assume_specification<T>[ std::sync::RwLock::<T>::new ](t: T) -> std::sync::RwLock<T>;

/// `text` is what the file holds for the document `m`: the encoding of some
/// list of its entries.
pub open spec fn writes(m: DocumentModel, text: Seq<char>) -> bool {
    exists|s: Seq<(ArticleId, Article)>|
        keys_unique(s) && #[trigger] model_of(s) == m && encoded(s) == Some(text)
}

/// The outcome of a write whose new document is `after`: a text that holds
/// it, or a failure to encode it, which comes only where chrono cannot write
/// one of its timestamps.
pub open spec fn write_outcome(after: DocumentModel, r: Result<String, RepoError>) -> bool {
    match r {
        Ok(t) => writes(after, t@),
        Err(e) => e == RepoError::Encode && !all_render(after),
    }
}

/// The store of articles kept in one JSON file, and the lock that orders the
/// reads and writes of that file.
///
/// Each operation takes the file's current bytes, read under the lock, and
/// gives what a reader sees or the whole text to write back; the caller holds
/// the lock in shared mode for reads and in exclusive mode from reading the
/// bytes until the new text is written and the file cut to its length.
pub struct ArticleRepository {
    path: String,
    lock: std::sync::RwLock<()>,
}

impl ArticleRepository {
    pub closed spec fn path_view(&self) -> Seq<char> {
        self.path@
    }

    /// A repository for the file at `path`. The file is not touched: one whose
    /// contents are absent is set up with `default_file_text` before use.
    pub fn new(path: String) -> (r: Self)
        ensures
            r.path_view() == path@,
    {
        ArticleRepository { path, lock: std::sync::RwLock::new(()) }
    }

    pub fn path(&self) -> (r: &str)
        ensures
            r@ == self.path_view(),
    {
        self.path.as_str()
    }

    /// The lock that orders this file's reads and writes.
    pub fn lock(&self) -> &std::sync::RwLock<()> {
        &self.lock
    }

    /// The text of a file that holds no articles.
    pub fn default_file_text() -> (r: Result<String, RepoError>)
        ensures
            r is Ok,
            write_outcome(Map::empty(), r),
    {
        let d = FileScheme::empty();
        let r = render_document(&d);
        proof {
            if r is Ok {
                assert(keys_unique(d.data@) && model_of(d.data@) == Map::<Seq<char>, crate::article::ArticleView>::empty());
            }
        }
        r
    }

    /// Reads the document from the file's bytes.
    pub fn parse_file_as_json(&self, bytes: Vec<u8>) -> (r: Result<FileScheme, RepoError>)
        ensures
            match r {
                Ok(d) => d.wf() && all_render(d@) && decoded(bytes@) == Ok::<DocumentModel, RepoError>(d@),
                Err(e) => decoded(bytes@) == Err::<DocumentModel, RepoError>(e),
            },
    {
        parse_document(bytes)
    }

    /// The text to write after storing `article_content` under `article_id`
    /// with creation time `created_at`, replacing any earlier record.
    pub fn set_entry_at(
        &self,
        current: Vec<u8>,
        article_id: ArticleId,
        article_content: String,
        created_at: Timestamp,
    ) -> (r: Result<String, RepoError>)
        ensures
            match decoded(current@) {
                Err(e) => r == Err::<String, RepoError>(e),
                Ok(m) => write_outcome(set_entry_model(m, article_id@, article_content@, created_at), r),
            },
            decoded(current@) is Ok && renders(created_at) ==> r is Ok,
    {
        let ghost k = article_id@;
        let mut d = self.parse_file_as_json(current)?;
        let ghost m0 = d@;
        d.set_entry(article_id, article_content, created_at);
        proof {
            if renders(created_at) {
                assert forall|q: Seq<char>| #[trigger] d@.contains_key(q) implies renders(d@[q].created_at) by {
                    if q != k {
                        assert(m0.contains_key(q));
                    }
                }
            }
        }
        let r = render_document(&d);
        proof {
            if r is Ok {
                assert(keys_unique(d.data@) && model_of(d.data@) == d@);
            }
        }
        r
    }

    /// The text to write after storing `article_content` under `article_id`,
    /// created now.
    pub fn set_entry(&self, current: Vec<u8>, article_id: ArticleId, article_content: String) -> (r: Result<
        String,
        RepoError,
    >)
        ensures
            match decoded(current@) {
                Err(e) => r == Err::<String, RepoError>(e),
                Ok(m) => exists|t: Timestamp|
                    -86_400 < t.offset_secs < 86_400
                    && write_outcome(#[trigger] set_entry_model(m, article_id@, article_content@, t), r)
                    && (renders(t) ==> r is Ok),
            },
    {
        let t = now();
        let r = self.set_entry_at(current, article_id, article_content, t);
        proof {
            if let Ok(m) = decoded(current@) {
                assert(-86_400 < t.offset_secs < 86_400
                    && write_outcome(set_entry_model(m, article_id@, article_content@, t), r)
                    && (renders(t) ==> r is Ok));
            }
        }
        r
    }

    /// A copy of the article stored under `article_id`.
    pub fn read_snapshot(&self, current: Vec<u8>, article_id: &ArticleId) -> (r: Result<Article, RepoError>)
        ensures
            match decoded(current@) {
                Err(e) => r == Err::<Article, RepoError>(e),
                Ok(m) => if m.contains_key(article_id@) {
                    r is Ok && r.unwrap()@ == m[article_id@]
                } else {
                    r == Err::<Article, RepoError>(RepoError::NotFound)
                },
            },
    {
        let d = self.parse_file_as_json(current)?;
        match d.get(article_id) {
            Some(a) => Ok(a.snapshot()),
            None => Err(RepoError::NotFound),
        }
    }

    /// Whether an article is stored under `article_id`.
    pub fn contains(&self, current: Vec<u8>, article_id: &ArticleId) -> (r: Result<bool, RepoError>)
        ensures
            match decoded(current@) {
                Err(e) => r == Err::<bool, RepoError>(e),
                Ok(m) => r == Ok::<bool, RepoError>(m.contains_key(article_id@)),
            },
    {
        let d = self.parse_file_as_json(current)?;
        Ok(d.contains_key(article_id))
    }

    /// The text to write after removing `article_id`; an absent id is no error.
    pub fn remove(&self, current: Vec<u8>, article_id: &ArticleId) -> (r: Result<String, RepoError>)
        ensures
            match decoded(current@) {
                Err(e) => r == Err::<String, RepoError>(e),
                Ok(m) => write_outcome(remove_model(m, article_id@), r),
            },
            decoded(current@) is Ok ==> r is Ok,
    {
        let mut d = self.parse_file_as_json(current)?;
        let ghost m0 = d@;
        d.remove(article_id);
        proof {
            assert forall|q: Seq<char>| #[trigger] d@.contains_key(q) implies renders(d@[q].created_at) by {
                assert(m0.contains_key(q));
            }
        }
        let r = render_document(&d);
        proof {
            if r is Ok {
                assert(keys_unique(d.data@) && model_of(d.data@) == d@);
            }
        }
        r
    }
}

} // verus!
