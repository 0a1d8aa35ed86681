use vstd::prelude::*;
use crate::article::{Article, ArticleId, ArticleView, Timestamp};

verus! {

/// The mapping from article ids to articles: the entire persisted state.
pub type DocumentModel = Map<Seq<char>, ArticleView>;

/// The record that `set_entry` stores for `id`.
pub open spec fn entry_of(id: Seq<char>, content: Seq<char>, created_at: Timestamp) -> ArticleView {
    ArticleView { created_at, content, id }
}

/// The document after `set_entry(id, content)` at time `created_at`.
pub open spec fn set_entry_model(
    m: DocumentModel,
    id: Seq<char>,
    content: Seq<char>,
    created_at: Timestamp,
) -> DocumentModel {
    m.insert(id, entry_of(id, content, created_at))
}

/// The document after `remove(id)`.
pub open spec fn remove_model(m: DocumentModel, id: Seq<char>) -> DocumentModel {
    m.remove(id)
}

/// Every key appears at most once.
pub open spec fn keys_unique(s: Seq<(ArticleId, Article)>) -> bool {
    forall|i: int, j: int|
        0 <= i < s.len() && 0 <= j < s.len() && i != j ==> #[trigger] s[i].0@ != #[trigger] s[j].0@
}

pub open spec fn has_key(s: Seq<(ArticleId, Article)>, k: Seq<char>) -> bool {
    exists|i: int| 0 <= i < s.len() && #[trigger] s[i].0@ == k
}

/// The map that a sequence of distinct keyed entries stands for.
pub open spec fn model_of(s: Seq<(ArticleId, Article)>) -> DocumentModel {
    Map::new(
        |k: Seq<char>| has_key(s, k),
        |k: Seq<char>| s[choose|i: int| 0 <= i < s.len() && #[trigger] s[i].0@ == k].1@,
    )
}

/// The document after a sequence of `set_entry` calls, applied in order.
pub open spec fn apply_sets(m: DocumentModel, ops: Seq<(Seq<char>, Seq<char>, Timestamp)>) -> DocumentModel
    decreases ops.len(),
{
    if ops.len() == 0 {
        m
    } else {
        let last = ops.last();
        set_entry_model(apply_sets(m, ops.drop_last()), last.0, last.1, last.2)
    }
}

/// Reading an id right after setting it gives back that id and content.
pub proof fn lemma_set_then_read(m: DocumentModel, id: Seq<char>, content: Seq<char>, t: Timestamp)
    ensures
        set_entry_model(m, id, content, t).contains_key(id),
        set_entry_model(m, id, content, t)[id].content == content,
        set_entry_model(m, id, content, t)[id].id == id,
{
}

/// Removing an absent id changes nothing, and removing twice is removing once.
pub proof fn lemma_remove_idempotent(m: DocumentModel, id: Seq<char>)
    ensures
        !m.contains_key(id) ==> remove_model(m, id) == m,
        remove_model(remove_model(m, id), id) == remove_model(m, id),
{
    assert(remove_model(remove_model(m, id), id) =~= remove_model(m, id));
    if !m.contains_key(id) {
        assert(remove_model(m, id) =~= m);
    }
}

/// An id exists after it is set and does not after it is removed.
pub proof fn lemma_exists_after_set_and_remove(m: DocumentModel, id: Seq<char>, content: Seq<char>, t: Timestamp)
    ensures
        set_entry_model(m, id, content, t).contains_key(id),
        !remove_model(m, id).contains_key(id),
{
}

/// Setting an id twice keeps only the second content and the second creation time.
pub proof fn lemma_overwrite(
    m: DocumentModel,
    id: Seq<char>,
    c1: Seq<char>,
    t1: Timestamp,
    c2: Seq<char>,
    t2: Timestamp,
)
    ensures
        set_entry_model(set_entry_model(m, id, c1, t1), id, c2, t2)[id] == entry_of(id, c2, t2),
        set_entry_model(set_entry_model(m, id, c1, t1), id, c2, t2) == set_entry_model(m, id, c2, t2),
{
    assert(set_entry_model(set_entry_model(m, id, c1, t1), id, c2, t2) =~= set_entry_model(m, id, c2, t2));
}

/// Whatever order a set of writers is serialized in, every id written is
/// present afterwards; where the ids are distinct, each holds what its own
/// writer stored.
pub proof fn lemma_no_lost_update(m: DocumentModel, ops: Seq<(Seq<char>, Seq<char>, Timestamp)>)
    ensures
        forall|i: int| 0 <= i < ops.len() ==> apply_sets(m, ops).contains_key(#[trigger] ops[i].0),
        (forall|i: int, j: int| 0 <= i < ops.len() && 0 <= j < ops.len() && i != j
            ==> #[trigger] ops[i].0 != #[trigger] ops[j].0)
            ==> forall|i: int| 0 <= i < ops.len() ==> apply_sets(m, ops)[#[trigger] ops[i].0]
                == entry_of(ops[i].0, ops[i].1, ops[i].2),
    decreases ops.len(),
{
    if ops.len() > 0 {
        let init = ops.drop_last();
        lemma_no_lost_update(m, init);
        assert forall|i: int| 0 <= i < init.len() implies #[trigger] init[i] == ops[i] by {}
        let n = ops.len() - 1;
        assert forall|i: int| 0 <= i < ops.len() implies apply_sets(m, ops).contains_key(#[trigger] ops[i].0) by {
            if i < n {
                assert(init[i] == ops[i]);
                assert(apply_sets(m, init).contains_key(init[i].0));
            }
        }
        if forall|i: int, j: int| 0 <= i < ops.len() && 0 <= j < ops.len() && i != j
            ==> #[trigger] ops[i].0 != #[trigger] ops[j].0 {
            assert forall|i: int, j: int| 0 <= i < init.len() && 0 <= j < init.len() && i != j
                implies #[trigger] init[i].0 != #[trigger] init[j].0 by {
                assert(init[i] == ops[i] && init[j] == ops[j]);
            }
            assert forall|i: int| 0 <= i < ops.len() implies apply_sets(m, ops)[#[trigger] ops[i].0]
                == entry_of(ops[i].0, ops[i].1, ops[i].2) by {
                if i < n {
                    assert(init[i] == ops[i]);
                    assert(ops[i].0 != ops[n].0);
                    assert(apply_sets(m, init)[init[i].0] == entry_of(init[i].0, init[i].1, init[i].2));
                }
            }
        }
    }
}

/// The decoded document: each article under its key, keys unique.
pub struct FileScheme {
    pub data: Vec<(ArticleId, Article)>,
}

impl View for FileScheme {
    type V = DocumentModel;

    open spec fn view(&self) -> DocumentModel {
        model_of(self.data@)
    }
}

pub(crate) proof fn lemma_model_at(s: Seq<(ArticleId, Article)>, i: int)
    requires
        keys_unique(s),
        0 <= i < s.len(),
    ensures
        model_of(s).contains_key(s[i].0@),
        model_of(s)[s[i].0@] == s[i].1@,
{
    let k = s[i].0@;
    assert(has_key(s, k));
    let j = choose|j: int| 0 <= j < s.len() && #[trigger] s[j].0@ == k;
    assert(j == i);
}

impl FileScheme {
    pub open spec fn wf(&self) -> bool {
        keys_unique(self.data@)
    }

    /// The document with no articles.
    pub fn empty() -> (r: Self)
        ensures
            r.wf(),
            r@ == Map::<Seq<char>, ArticleView>::empty(),
    {
        let r = FileScheme { data: Vec::new() };
        assert(r@ =~= Map::<Seq<char>, ArticleView>::empty());
        r
    }

    pub fn len(&self) -> (r: usize)
        requires
            self.wf(),
        ensures
            r == self@.len(),
    {
        proof { self.lemma_len(); }
        self.data.len()
    }

    proof fn lemma_len(&self)
        requires
            self.wf(),
        ensures
            self@.len() == self.data@.len(),
            self@.dom().finite(),
        decreases self.data@.len(),
    {
        let s = self.data@;
        let n = s.len() as int;
        let f = |i: int| s[i].0@;
        let idx = Set::new(|i: int| 0 <= i < n);
        assert(idx =~= vstd::set_lib::set_int_range(0, n));
        vstd::set_lib::lemma_int_range(0, n);
        assert forall|a: int, b: int| idx.contains(a) && idx.contains(b) && f(a) == f(b) implies a == b by {}
        vstd::set_lib::lemma_map_size(idx, idx.map(f), f);
        assert(self@.dom() =~= idx.map(f)) by {
            assert forall|k: Seq<char>| self@.dom().contains(k) implies idx.map(f).contains(k) by {
                let i = choose|i: int| 0 <= i < s.len() && #[trigger] s[i].0@ == k;
                assert(idx.contains(i) && f(i) == k);
            }
            assert forall|k: Seq<char>| idx.map(f).contains(k) implies self@.dom().contains(k) by {
                let i = choose|i: int| idx.contains(i) && f(i) == k;
                assert(s[i].0@ == k);
            }
        }
    }

    /// Where `id` stands in `data`, if it does.
    fn index_of(&self, id: &ArticleId) -> (r: Option<usize>)
        requires
            self.wf(),
        ensures
            match r {
                Some(i) => i < self.data@.len() && self.data@[i as int].0@ == id@,
                None => !has_key(self.data@, id@),
            },
    {
        let mut i: usize = 0;
        while i < self.data.len()
            invariant
                i <= self.data@.len(),
                forall|j: int| 0 <= j < i ==> #[trigger] self.data@[j].0@ != id@,
            decreases self.data@.len() - i,
        {
            if self.data[i].0 == *id {
                return Some(i);
            }
            i = i + 1;
        }
        None
    }

    /// Whether an article is stored under `id`.
    pub fn contains_key(&self, id: &ArticleId) -> (r: bool)
        requires
            self.wf(),
        ensures
            r == self@.contains_key(id@),
    {
        self.index_of(id).is_some()
    }

    /// The article stored under `id`, if any.
    pub fn get(&self, id: &ArticleId) -> (r: Option<&Article>)
        requires
            self.wf(),
        ensures
            r is Some == self@.contains_key(id@),
            r is Some ==> r.unwrap()@ == self@[id@],
    {
        match self.index_of(id) {
            Some(i) => {
                proof { lemma_model_at(self.data@, i as int); }
                Some(&self.data[i].1)
            },
            None => None,
        }
    }

    /// Stores `article` under `id`, replacing what was there.
    pub fn insert(&mut self, id: ArticleId, article: Article)
        requires
            old(self).wf(),
        ensures
            final(self).wf(),
            final(self)@ == old(self)@.insert(id@, article@),
    {
        let ghost s0 = self.data@;
        let ghost k = id@;
        let ghost v = article@;
        match self.index_of(&id) {
            Some(i) => {
                self.data.set(i, (id, article));
                proof {
                    let s1 = self.data@;
                    assert(keys_unique(s1)) by {
                        assert forall|a: int, b: int|
                            0 <= a < s1.len() && 0 <= b < s1.len() && a != b implies
                            #[trigger] s1[a].0@ != #[trigger] s1[b].0@ by {
                            assert(s0[a].0@ != s0[b].0@);
                        }
                    }
                    assert forall|q: Seq<char>| has_key(s1, q) == has_key(s0, q) by {
                        if has_key(s1, q) {
                            let j = choose|j: int| 0 <= j < s1.len() && #[trigger] s1[j].0@ == q;
                            assert(s0[j].0@ == q);
                        }
                        if has_key(s0, q) {
                            let j = choose|j: int| 0 <= j < s0.len() && #[trigger] s0[j].0@ == q;
                            assert(s1[j].0@ == q);
                        }
                    }
                    assert forall|q: Seq<char>| #[trigger] has_key(s1, q) implies
                        model_of(s1)[q] == model_of(s0).insert(k, v)[q] by {
                        let j = choose|j: int| 0 <= j < s1.len() && #[trigger] s1[j].0@ == q;
                        lemma_model_at(s1, j);
                        lemma_model_at(s0, j);
                    }
                    assert(model_of(s1) =~= model_of(s0).insert(k, v));
                }
            },
            None => {
                self.data.push((id, article));
                proof {
                    let s1 = self.data@;
                    let n = s0.len() as int;
                    assert(keys_unique(s1)) by {
                        assert forall|a: int, b: int|
                            0 <= a < s1.len() && 0 <= b < s1.len() && a != b implies
                            #[trigger] s1[a].0@ != #[trigger] s1[b].0@ by {
                            if a < n && b < n {
                                assert(s0[a].0@ != s0[b].0@);
                            } else if a < n {
                                assert(s0[a].0@ == s1[a].0@);
                            } else {
                                assert(s0[b].0@ == s1[b].0@);
                            }
                        }
                    }
                    assert(s1[n].0@ == k);
                    assert forall|q: Seq<char>| has_key(s1, q) == (has_key(s0, q) || q == k) by {
                        if has_key(s1, q) {
                            let j = choose|j: int| 0 <= j < s1.len() && #[trigger] s1[j].0@ == q;
                            if j < n {
                                assert(s0[j].0@ == q);
                            }
                        }
                        if has_key(s0, q) {
                            let j = choose|j: int| 0 <= j < s0.len() && #[trigger] s0[j].0@ == q;
                            assert(s1[j].0@ == q);
                        }
                    }
                    assert forall|q: Seq<char>| #[trigger] has_key(s1, q) implies
                        model_of(s1)[q] == model_of(s0).insert(k, v)[q] by {
                        let j = choose|j: int| 0 <= j < s1.len() && #[trigger] s1[j].0@ == q;
                        lemma_model_at(s1, j);
                        if j < n {
                            lemma_model_at(s0, j);
                        }
                    }
                    assert(model_of(s1) =~= model_of(s0).insert(k, v));
                }
            },
        }
    }

    /// Removes what is stored under `id`; a document without `id` stays as it is.
    pub fn remove(&mut self, id: &ArticleId)
        requires
            old(self).wf(),
        ensures
            final(self).wf(),
            final(self)@ == old(self)@.remove(id@),
    {
        let ghost s0 = self.data@;
        let ghost k = id@;
        match self.index_of(id) {
            Some(i) => {
                self.data.remove(i);
                proof {
                    let s1 = self.data@;
                    let ii = i as int;
                    assert forall|a: int| 0 <= a < s1.len() implies
                        #[trigger] s1[a] == s0[if a < ii { a } else { a + 1 }] by {}
                    assert(keys_unique(s1)) by {
                        assert forall|a: int, b: int|
                            0 <= a < s1.len() && 0 <= b < s1.len() && a != b implies
                            #[trigger] s1[a].0@ != #[trigger] s1[b].0@ by {
                            let a0 = if a < ii { a } else { a + 1 };
                            let b0 = if b < ii { b } else { b + 1 };
                            assert(s1[a] == s0[a0]);
                            assert(s1[b] == s0[b0]);
                            assert(s0[a0].0@ != s0[b0].0@);
                        }
                    }
                    assert forall|q: Seq<char>| has_key(s1, q) == (has_key(s0, q) && q != k) by {
                        if has_key(s1, q) {
                            let j = choose|j: int| 0 <= j < s1.len() && #[trigger] s1[j].0@ == q;
                            let j0 = if j < ii { j } else { j + 1 };
                            assert(s1[j] == s0[j0]);
                            assert(s0[j0].0@ == q);
                            assert(j0 != ii);
                            assert(s0[ii].0@ != s0[j0].0@);
                        }
                        if has_key(s0, q) && q != k {
                            let j = choose|j: int| 0 <= j < s0.len() && #[trigger] s0[j].0@ == q;
                            assert(j != ii);
                            let j1 = if j < ii { j } else { j - 1 };
                            assert(s1[j1] == s0[j]);
                            assert(s1[j1].0@ == q);
                        }
                    }
                    assert forall|q: Seq<char>| #[trigger] has_key(s1, q) implies
                        model_of(s1)[q] == model_of(s0).remove(k)[q] by {
                        let j = choose|j: int| 0 <= j < s1.len() && #[trigger] s1[j].0@ == q;
                        let j0 = if j < ii { j } else { j + 1 };
                        assert(s1[j] == s0[j0]);
                        lemma_model_at(s1, j);
                        lemma_model_at(s0, j0);
                    }
                    assert(model_of(s1) =~= model_of(s0).remove(k));
                }
            },
            None => {
                proof {
                    assert(model_of(s0) =~= model_of(s0).remove(k));
                }
            },
        }
    }

    /// Stores a fresh record for `id` with the given content and creation time,
    /// replacing the whole previous record if there was one.
    pub fn set_entry(&mut self, id: ArticleId, content: String, created_at: Timestamp)
        requires
            old(self).wf(),
        ensures
            final(self).wf(),
            final(self)@ == set_entry_model(old(self)@, id@, content@, created_at),
    {
        let key = ArticleId(id.0.clone());
        let article = Article { created_at, content, id };
        self.insert(key, article);
    }
}

} // verus!
