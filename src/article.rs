use vstd::prelude::*;

verus! {

/// The key of an article: a string compared by its characters.
#[derive(Debug, Clone, Hash, Eq)]
pub struct ArticleId(pub String);

impl View for ArticleId {
    type V = Seq<char>;

    open spec fn view(&self) -> Seq<char> {
        self.0@
    }
}

impl PartialEq for ArticleId {
    fn eq(&self, o: &ArticleId) -> (r: bool)
        ensures
            r == (self@ == o@),
    {
        self.0 == o.0
    }
}

impl vstd::std_specs::cmp::PartialEqSpecImpl for ArticleId {
    open spec fn obeys_eq_spec() -> bool {
        true
    }

    open spec fn eq_spec(&self, o: &ArticleId) -> bool {
        self@ == o@
    }
}

impl ArticleId {
    pub fn new(s: String) -> (r: Self)
        ensures
            r@ == s@,
    {
        ArticleId(s)
    }

    pub fn as_str(&self) -> (r: &str)
        ensures
            r@ == self@,
    {
        self.0.as_str()
    }

    /// The text shown for this id: the string itself.
    pub fn to_display_string(&self) -> (r: String)
        ensures
            r@ == self@,
    {
        self.0.clone()
    }
}

/// A point in time with the offset of the zone it was taken in: seconds since
/// the Unix epoch (UTC), the nanoseconds within that second, and the zone's
/// offset from UTC in seconds.
#[derive(Debug, Clone, Copy, PartialEq, Eq, Structural)]
pub struct Timestamp {
    pub secs: i64,
    pub nanos: u32,
    pub offset_secs: i32,
}

/// The plain values of an article.
pub struct ArticleView {
    pub created_at: Timestamp,
    pub content: Seq<char>,
    pub id: Seq<char>,
}

/// One stored record.
#[derive(Debug, Clone)]
pub struct Article {
    pub created_at: Timestamp,
    pub content: String,
    pub id: ArticleId,
}

impl View for Article {
    type V = ArticleView;

    open spec fn view(&self) -> ArticleView {
        ArticleView { created_at: self.created_at, content: self.content@, id: self.id@ }
    }
}

impl Article {
    /// A copy that owns its own strings.
    pub fn snapshot(&self) -> (r: Article)
        ensures
            r@ == self@,
    {
        Article {
            created_at: self.created_at,
            content: self.content.clone(),
            id: ArticleId(self.id.0.clone()),
        }
    }
}

} // verus!
