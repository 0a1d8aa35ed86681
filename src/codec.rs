use vstd::prelude::*;
use crate::article::{Article, ArticleId, ArticleView, Timestamp};
use crate::document::{keys_unique, lemma_model_at, model_of, DocumentModel, FileScheme};
use crate::error::{DecodeStage, RepoError};

verus! {

/// The fields of one article as JSON string pairs.
pub type Fields = Vec<(String, String)>;

/// Article ids with their fields.
pub type Entries = Vec<(String, Fields)>;

/// A JSON object of objects of objects whose leaves are strings.
pub type JsonTree = Vec<(String, Entries)>;

pub type FieldsView = Seq<(Seq<char>, Seq<char>)>;

pub type EntriesView = Seq<(Seq<char>, FieldsView)>;

pub type TreeView = Seq<(Seq<char>, EntriesView)>;

#[verifier::external_type_specification]
#[verifier::external_body]
pub struct ExJsonError(serde_json::Error);

/// The text in which serde_json writes a tree, keys of each object in order.
pub uninterp spec fn json_text_of(tree: TreeView) -> Seq<char>;

/// The tree that serde_json reads from a text, each object's keys in order,
/// or nothing when the text is not of that shape.
pub uninterp spec fn json_tree_of(text: Seq<char>) -> Option<TreeView>;

/// The characters that a byte sequence holds as UTF-8, if it is UTF-8.
pub uninterp spec fn utf8_decode(bytes: Seq<u8>) -> Option<Seq<char>>;

/// chrono's RFC 3339 text of an instant shown at an offset, with as many
/// fraction digits as needed and `Z` for a zero offset; nothing where chrono
/// rejects the values.
pub uninterp spec fn rfc3339_text_of(secs: i64, nanos: u32, offset_secs: i32) -> Option<Seq<char>>;

/// The instant and offset that chrono reads from an RFC 3339 text.
pub uninterp spec fn rfc3339_parse_of(text: Seq<char>) -> Option<(i64, u32, i32)>;

/// Relies on serde_json::to_string, on a map of maps of maps of strings, which
/// writes each object with its keys in order. It fails only where a Serialize
/// impl fails or a map key is not a string, neither of which can happen here.
#[verifier::external_body]
fn json_text(tree: &JsonTree) -> (r: Result<String, serde_json::Error>)
    ensures
        r is Ok,
        r is Ok ==> r.unwrap()@ == json_text_of(tree.deep_view()),
{
    let m: std::collections::BTreeMap<String, std::collections::BTreeMap<String, std::collections::BTreeMap<String, String>>> =
        tree.iter().map(|(k, v)| (k.clone(), v.iter().map(|(k2, f)| (k2.clone(), f.iter().cloned().collect())).collect())).collect();
    serde_json::to_string(&m)
}

/// Relies on serde_json::from_str, into a map of maps of maps of strings,
/// whose entries come out with their keys in order.
#[verifier::external_body]
fn json_tree(text: &str) -> (r: Result<JsonTree, serde_json::Error>)
    ensures
        r is Ok <==> json_tree_of(text@) is Some,
        r is Ok ==> r.unwrap().deep_view() == json_tree_of(text@).unwrap(),
{
    let m: std::collections::BTreeMap<String, std::collections::BTreeMap<String, std::collections::BTreeMap<String, String>>> =
        serde_json::from_str(text)?;
    Ok(m.into_iter().map(|(k, v)| (k, v.into_iter().map(|(k2, f)| (k2, f.into_iter().collect())).collect())).collect())
}

/// Relies on String::from_utf8, which accepts exactly the UTF-8 byte sequences.
#[verifier::external_body]
fn utf8_text(bytes: Vec<u8>) -> (r: Option<String>)
    ensures
        r is Some <==> utf8_decode(bytes@) is Some,
        r is Some ==> r.unwrap()@ == utf8_decode(bytes@).unwrap(),
{
    String::from_utf8(bytes).ok()
}

/// Relies on chrono::Local::now, the current time in the machine's zone, whose
/// offset is a chrono::FixedOffset and so lies strictly within one day.
#[verifier::external_body]
pub fn now() -> (r: Timestamp)
    ensures
        -86_400 < r.offset_secs < 86_400,
{
    let d = chrono::Local::now();
    Timestamp { secs: d.timestamp(), nanos: d.timestamp_subsec_nanos(), offset_secs: d.offset().local_minus_utc() }
}

/// Relies on chrono::DateTime::to_rfc3339_opts with SecondsFormat::AutoSi and
/// `Z` for UTC, the form in which chrono's serde support writes a DateTime.
/// FixedOffset::east_opt rejects an offset of a day or more,
/// DateTime::from_timestamp an instant out of chrono's range, and
/// NaiveDateTime::checked_add_offset a local time out of that range, which
/// to_rfc3339_opts would otherwise meet with a panic.
#[verifier::external_body]
fn rfc3339_text(t: &Timestamp) -> (r: Option<String>)
    ensures
        r is Some <==> rfc3339_text_of(t.secs, t.nanos, t.offset_secs) is Some,
        r is Some ==> r.unwrap()@ == rfc3339_text_of(t.secs, t.nanos, t.offset_secs).unwrap(),
        !(-86_400 < t.offset_secs < 86_400) ==> r is None,
{
    let off = chrono::FixedOffset::east_opt(t.offset_secs)?;
    let d = chrono::DateTime::from_timestamp(t.secs, t.nanos)?;
    d.naive_utc().checked_add_offset(off)?;
    Some(d.with_timezone(&off).to_rfc3339_opts(chrono::SecondsFormat::AutoSi, true))
}

/// Relies on the FromStr impl of chrono::DateTime<FixedOffset>, which chrono's
/// serde support uses to read a DateTime; the offset read is a FixedOffset.
/// The parser reads offsets in whole minutes and builds the value from a valid
/// local date and time (Parsed::to_datetime), so chrono can write it back.
#[verifier::external_body]
fn rfc3339_parse(text: &str) -> (r: Option<(i64, u32, i32)>)
    ensures
        r == rfc3339_parse_of(text@),
        r is Some ==> -86_400 < r.unwrap().2 < 86_400,
        r is Some ==> rfc3339_text_of(r.unwrap().0, r.unwrap().1, r.unwrap().2) is Some,
{
    match text.parse::<chrono::DateTime<chrono::FixedOffset>>() {
        Ok(d) => Some((d.timestamp(), d.timestamp_subsec_nanos(), d.offset().local_minus_utc())),
        Err(_) => None,
    }
}

/// chrono can write this timestamp.
pub open spec fn renders(t: Timestamp) -> bool {
    rfc3339_text_of(t.secs, t.nanos, t.offset_secs) is Some
}

/// chrono can write every timestamp in the document.
pub open spec fn all_render(m: DocumentModel) -> bool {
    forall|k: Seq<char>| #[trigger] m.contains_key(k) ==> renders(m[k].created_at)
}

/// The key under which the document keeps its mapping.
pub open spec fn data_key() -> Seq<char> {
    "data"@
}

pub open spec fn content_key() -> Seq<char> {
    "content"@
}

pub open spec fn created_at_key() -> Seq<char> {
    "created_at"@
}

pub open spec fn id_key() -> Seq<char> {
    "id"@
}

/// The position of the last pair with key `k`: a later pair wins over an earlier one.
pub open spec fn last_index<V>(s: Seq<(Seq<char>, V)>, k: Seq<char>) -> Option<int>
    decreases s.len(),
{
    if s.len() == 0 {
        None
    } else if s.last().0 == k {
        Some(s.len() - 1)
    } else {
        last_index(s.drop_last(), k)
    }
}

/// The value under key `k`.
pub open spec fn lookup<V>(s: Seq<(Seq<char>, V)>, k: Seq<char>) -> Option<V> {
    match last_index(s, k) {
        Some(i) => Some(s[i].1),
        None => None,
    }
}

proof fn lemma_last_index<V>(s: Seq<(Seq<char>, V)>, k: Seq<char>)
    ensures
        last_index(s, k) matches Some(i) ==> 0 <= i < s.len() && s[i].0 == k,
    decreases s.len(),
{
    if s.len() > 0 && s.last().0 != k {
        lemma_last_index(s.drop_last(), k);
    }
}

/// The article that a set of fields describes, if it has all three and a
/// readable timestamp.
pub open spec fn article_model(fs: FieldsView) -> Option<ArticleView> {
    match (lookup(fs, content_key()), lookup(fs, id_key()), lookup(fs, created_at_key())) {
        (Some(c), Some(id), Some(t)) => match rfc3339_parse_of(t) {
            Some(p) => Some(ArticleView { created_at: Timestamp { secs: p.0, nanos: p.1, offset_secs: p.2 }, content: c, id }),
            None => None,
        },
        _ => None,
    }
}

/// The mapping that a list of entries describes, a later key winning.
pub open spec fn entries_model(es: EntriesView) -> Option<DocumentModel>
    decreases es.len(),
{
    if es.len() == 0 {
        Some(Map::empty())
    } else {
        match (entries_model(es.drop_last()), article_model(es.last().1)) {
            (Some(m), Some(a)) => Some(m.insert(es.last().0, a)),
            _ => None,
        }
    }
}

/// The document that a JSON tree describes.
pub open spec fn tree_model(t: TreeView) -> Option<DocumentModel> {
    match lookup(t, data_key()) {
        Some(es) => entries_model(es),
        None => None,
    }
}

/// What reading the document from the file's bytes yields.
pub open spec fn decoded(bytes: Seq<u8>) -> Result<DocumentModel, RepoError> {
    match utf8_decode(bytes) {
        None => Err(RepoError::Decode(DecodeStage::Utf8)),
        Some(text) => match json_tree_of(text) {
            None => Err(RepoError::Decode(DecodeStage::Json)),
            Some(t) => match tree_model(t) {
                None => Err(RepoError::Decode(DecodeStage::Shape)),
                Some(m) => Ok(m),
            },
        },
    }
}

/// The JSON fields written for an article.
pub open spec fn fields_of(a: ArticleView) -> Option<FieldsView> {
    match rfc3339_text_of(a.created_at.secs, a.created_at.nanos, a.created_at.offset_secs) {
        Some(t) => Some(seq![(content_key(), a.content), (created_at_key(), t), (id_key(), a.id)]),
        None => None,
    }
}

/// The JSON entries written for a document's entries, in their order.
pub open spec fn entries_of(s: Seq<(ArticleId, Article)>) -> Option<EntriesView>
    decreases s.len(),
{
    if s.len() == 0 {
        Some(Seq::empty())
    } else {
        match (entries_of(s.drop_last()), fields_of(s.last().1@)) {
            (Some(es), Some(f)) => Some(es.push((s.last().0@, f))),
            _ => None,
        }
    }
}

/// The JSON tree written for a document's entries.
pub open spec fn tree_of(s: Seq<(ArticleId, Article)>) -> Option<TreeView> {
    match entries_of(s) {
        Some(es) => Some(seq![(data_key(), es)]),
        None => None,
    }
}

fn key(k: &str) -> (r: String)
    ensures
        r@ == k@,
{
    k.to_owned()
}

/// The position of the last pair with key `k`.
fn find_key<V: DeepView>(s: &Vec<(String, V)>, k: &String) -> (r: Option<usize>)
    ensures
        match r {
            Some(i) => last_index(s.deep_view(), k@) == Some(i as int) && i < s@.len(),
            None => last_index(s.deep_view(), k@) is None,
        },
{
    let ghost sv = s.deep_view();
    let mut i: usize = s.len();
    assert(sv.take(s@.len() as int) =~= sv);
    while i > 0
        invariant
            i <= s@.len(),
            sv == s.deep_view(),
            last_index(sv, k@) == last_index(sv.take(i as int), k@),
        decreases i,
    {
        assert(sv.take(i as int).drop_last() =~= sv.take(i - 1));
        assert(sv[i - 1] == s@[i - 1].deep_view());
        if s[i - 1].0 == *k {
            return Some(i - 1);
        }
        i = i - 1;
    }
    assert(sv.take(0) =~= Seq::<(Seq<char>, V::V)>::empty());
    None
}

/// The string stored under key `k`.
fn field(fs: &Fields, k: &str) -> (r: Option<String>)
    ensures
        match r {
            Some(v) => lookup(fs.deep_view(), k@) == Some(v@),
            None => lookup(fs.deep_view(), k@) is None,
        },
{
    let kk = key(k);
    match find_key(fs, &kk) {
        Some(i) => {
            proof { lemma_last_index(fs.deep_view(), k@); }
            assert(fs.deep_view()[i as int] == fs@[i as int].deep_view());
            Some(fs[i].1.clone())
        },
        None => None,
    }
}

/// The article that a set of fields describes.
pub fn article_from_fields(fs: &Fields) -> (r: Option<Article>)
    ensures
        match r {
            Some(a) => article_model(fs.deep_view()) == Some(a@) && renders(a.created_at),
            None => article_model(fs.deep_view()) is None,
        },
{
    proof {
        reveal_strlit("content");
        reveal_strlit("id");
        reveal_strlit("created_at");
    }
    let content = field(fs, "content");
    let id = field(fs, "id");
    let created = field(fs, "created_at");
    match (content, id, created) {
        (Some(c), Some(i), Some(t)) => match rfc3339_parse(t.as_str()) {
            Some(p) => Some(Article {
                created_at: Timestamp { secs: p.0, nanos: p.1, offset_secs: p.2 },
                content: c,
                id: ArticleId(i),
            }),
            None => None,
        },
        _ => None,
    }
}

/// The document that a JSON tree describes.
pub fn document_from_tree(t: &JsonTree) -> (r: Option<FileScheme>)
    ensures
        match r {
            Some(d) => d.wf() && all_render(d@) && tree_model(t.deep_view()) == Some(d@),
            None => tree_model(t.deep_view()) is None,
        },
{
    proof { reveal_strlit("data"); }
    let dk = key("data");
    let idx = match find_key(t, &dk) {
        Some(i) => i,
        None => return None,
    };
    proof { lemma_last_index(t.deep_view(), data_key()); }
    let es = &t[idx].1;
    assert(t.deep_view()[idx as int] == t@[idx as int].deep_view());
    let ghost ev = es.deep_view();
    assert(lookup(t.deep_view(), data_key()) == Some(ev));
    let mut doc = FileScheme::empty();
    let mut i: usize = 0;
    while i < es.len()
        invariant
            i <= es@.len(),
            ev == es.deep_view(),
            lookup(t.deep_view(), data_key()) == Some(ev),
            doc.wf(),
            all_render(doc@),
            entries_model(ev.take(i as int)) == Some(doc@),
        decreases es@.len() - i,
    {
        assert(ev.take(i + 1).drop_last() =~= ev.take(i as int));
        assert(ev[i as int] == es@[i as int].deep_view());
        match article_from_fields(&es[i].1) {
            Some(a) => {
                doc.insert(ArticleId(es[i].0.clone()), a);
            },
            None => {
                assert(ev.take(i + 1).last() == ev[i as int]);
                proof { lemma_entries_model_none(ev, i as int + 1); }
                return None;
            },
        }
        i = i + 1;
    }
    assert(ev.take(es@.len() as int) =~= ev);
    Some(doc)
}

proof fn lemma_entries_model_none(es: EntriesView, i: int)
    requires
        0 <= i <= es.len(),
        entries_model(es.take(i)) is None,
    ensures
        entries_model(es) is None,
    decreases es.len() - i,
{
    if i < es.len() {
        assert(es.take(i + 1).drop_last() =~= es.take(i));
        lemma_entries_model_none(es, i + 1);
    } else {
        assert(es.take(i) =~= es);
    }
}

/// The JSON fields written for an article.
fn fields_for(a: &Article) -> (r: Option<Fields>)
    ensures
        match r {
            Some(f) => fields_of(a@) == Some(f.deep_view()),
            None => fields_of(a@) is None,
        },
{
    proof {
        reveal_strlit("content");
        reveal_strlit("id");
        reveal_strlit("created_at");
    }
    let t = match rfc3339_text(&a.created_at) {
        Some(t) => t,
        None => return None,
    };
    let f: Fields = vec![
        (key("content"), a.content.clone()),
        (key("created_at"), t),
        (key("id"), a.id.0.clone()),
    ];
    assert(f.deep_view() =~= fields_of(a@).unwrap());
    Some(f)
}

/// The JSON tree written for a document, its entries in the order they are kept.
pub fn document_to_tree(doc: &FileScheme) -> (r: Option<JsonTree>)
    ensures
        match r {
            Some(t) => tree_of(doc.data@) == Some(t.deep_view()),
            None => tree_of(doc.data@) is None,
        },
{
    proof { reveal_strlit("data"); }
    let ghost s = doc.data@;
    let mut es: Entries = Vec::new();
    let mut i: usize = 0;
    while i < doc.data.len()
        invariant
            i <= s.len(),
            s == doc.data@,
            entries_of(s.take(i as int)) == Some(es.deep_view()),
        decreases s.len() - i,
    {
        assert(s.take(i + 1).drop_last() =~= s.take(i as int));
        assert(s.take(i + 1).last() == s[i as int]);
        match fields_for(&doc.data[i].1) {
            Some(f) => {
                let ghost before = es.deep_view();
                es.push((doc.data[i].0.0.clone(), f));
                assert(es.deep_view() =~= before.push((s[i as int].0@, f.deep_view())));
            },
            None => {
                proof { lemma_entries_of_none(s, i as int + 1); }
                return None;
            },
        }
        i = i + 1;
    }
    assert(s.take(s.len() as int) =~= s);
    let t: JsonTree = vec![(key("data"), es)];
    assert(t.deep_view() =~= tree_of(s).unwrap());
    Some(t)
}

proof fn lemma_entries_of_none(s: Seq<(ArticleId, Article)>, i: int)
    requires
        0 <= i <= s.len(),
        entries_of(s.take(i)) is None,
    ensures
        entries_of(s) is None,
    decreases s.len() - i,
{
    if i < s.len() {
        assert(s.take(i + 1).drop_last() =~= s.take(i));
        lemma_entries_of_none(s, i + 1);
    } else {
        assert(s.take(i) =~= s);
    }
}

/// The text written to the file for a document.
pub open spec fn encoded(s: Seq<(ArticleId, Article)>) -> Option<Seq<char>> {
    match tree_of(s) {
        Some(t) => Some(json_text_of(t)),
        None => None,
    }
}

proof fn lemma_entries_encode(s: Seq<(ArticleId, Article)>)
    requires
        forall|i: int| 0 <= i < s.len() ==> renders(#[trigger] s[i].1.created_at),
    ensures
        entries_of(s) is Some,
    decreases s.len(),
{
    if s.len() > 0 {
        let init = s.drop_last();
        assert forall|i: int| 0 <= i < init.len() implies renders(#[trigger] init[i].1.created_at) by {
            assert(init[i] == s[i]);
        }
        lemma_entries_encode(init);
        assert(renders(s[s.len() - 1].1.created_at));
    }
}

/// A document whose timestamps chrono can all write can be encoded.
proof fn lemma_all_render_encodes(s: Seq<(ArticleId, Article)>)
    requires
        keys_unique(s),
        all_render(model_of(s)),
    ensures
        encoded(s) is Some,
{
    assert forall|i: int| 0 <= i < s.len() implies renders(#[trigger] s[i].1.created_at) by {
        lemma_model_at(s, i);
    }
    lemma_entries_encode(s);
}

/// Reads the document from the file's bytes: UTF-8, then JSON, then the shape
/// of a mapping from ids to articles; each failure names its stage.
pub fn parse_document(bytes: Vec<u8>) -> (r: Result<FileScheme, RepoError>)
    ensures
        match r {
            Ok(d) => d.wf() && all_render(d@) && decoded(bytes@) == Ok::<DocumentModel, RepoError>(d@),
            Err(e) => decoded(bytes@) == Err::<DocumentModel, RepoError>(e),
        },
{
    let ghost b = bytes@;
    let text = match utf8_text(bytes) {
        Some(t) => t,
        None => return Err(RepoError::Decode(DecodeStage::Utf8)),
    };
    let tree = match json_tree(text.as_str()) {
        Ok(t) => t,
        Err(_) => return Err(RepoError::Decode(DecodeStage::Json)),
    };
    match document_from_tree(&tree) {
        Some(d) => Ok(d),
        None => Err(RepoError::Decode(DecodeStage::Shape)),
    }
}

/// Writes a document as the whole text of the file.
pub fn render_document(doc: &FileScheme) -> (r: Result<String, RepoError>)
    ensures
        r is Ok <==> encoded(doc.data@) is Some,
        r is Ok ==> encoded(doc.data@) == Some(r.unwrap()@),
        r is Err ==> r == Err::<String, RepoError>(RepoError::Encode),
        doc.wf() && all_render(doc@) ==> r is Ok,
{
    proof {
        if doc.wf() && all_render(doc@) {
            lemma_all_render_encodes(doc.data@);
        }
    }
    let tree = match document_to_tree(doc) {
        Some(t) => t,
        None => return Err(RepoError::Encode),
    };
    match json_text(&tree) {
        Ok(s) => Ok(s),
        Err(_) => Err(RepoError::Encode),
    }
}

} // verus!
