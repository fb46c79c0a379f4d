//! What is known of the machine.
//!
//! A query about block devices depends on files, directories, links and the
//! labels on devices. It is a function of a [`Facts`] list of those: it gives
//! its result, or the first [`Question`] whose answer is not in the list. The
//! caller finds the answer out, adds it, and asks again.
//!
//! The contracts speak of a [`World`], in which every question has an answer.
//! The result of a query is the one for every world that the facts agree with.
//! Which questions a query reads, and in what order, is a spec function of the
//! world, too; the query asks the first of them that is open, and it has its
//! result as soon as none is.

use vstd::prelude::*;

use crate::table::Table;
use crate::text::{opt_text, texts};

verus! {

/// The tags that libblkid finds on a device.
pub struct Tags {
    pub label: Option<String>,
    pub kind: Option<String>,
    pub uuid: Option<String>,
}

/// The contents of [`Tags`].
#[verifier::ext_equal]
pub ghost struct TagTexts {
    pub label: Option<Seq<char>>,
    pub kind: Option<Seq<char>>,
    pub uuid: Option<Seq<char>>,
}

impl View for Tags {
    type V = TagTexts;

    open spec fn view(&self) -> TagTexts {
        TagTexts {
            label: opt_text(self.label),
            kind: opt_text(self.kind),
            uuid: opt_text(self.uuid),
        }
    }
}

/// The state of a machine.
pub ghost struct World {
    /// The text of a file, if it can be read.
    pub file: spec_fn(Seq<char>) -> Option<Seq<char>>,
    /// The names in a directory; none if it cannot be read.
    pub dir: spec_fn(Seq<char>) -> Seq<Seq<char>>,
    /// The tags on a device.
    pub tags: spec_fn(Seq<char>) -> TagTexts,
    /// The canonical form of a path, if there is something there.
    pub canonical: spec_fn(Seq<char>) -> Option<Seq<char>>,
    /// The length of a regular file.
    pub length: spec_fn(Seq<char>) -> Option<u64>,
}

/// A question about the machine.
pub enum Question {
    /// The text of the file `path`: [`Facts::add_file`].
    File { path: String },
    /// The names in the directory `path`: [`Facts::add_dir`].
    Dir { path: String },
    /// The tags on `device`: [`Facts::add_tags`].
    Tags { device: String },
    /// The canonical form of `path`: [`Facts::add_canonical`].
    Canonical { path: String },
    /// The length of the regular file `path`: [`Facts::add_length`].
    Length { path: String },
}

/// The contents of a [`Question`].
#[verifier::ext_equal]
pub ghost enum Query {
    File(Seq<char>),
    Dir(Seq<char>),
    Tags(Seq<char>),
    Canonical(Seq<char>),
    Length(Seq<char>),
}

impl View for Question {
    type V = Query;

    open spec fn view(&self) -> Query {
        match *self {
            Question::File { path } => Query::File(path@),
            Question::Dir { path } => Query::Dir(path@),
            Question::Tags { device } => Query::Tags(device@),
            Question::Canonical { path } => Query::Canonical(path@),
            Question::Length { path } => Query::Length(path@),
        }
    }
}

/// The result of a query, or a question that has to be answered first.
pub enum Found<T> {
    Ready(T),
    Need(Question),
}

/// A text, or none.
pub struct MaybeText(pub Option<String>);

impl View for MaybeText {
    type V = Option<Seq<char>>;

    open spec fn view(&self) -> Option<Seq<char>> {
        opt_text(self.0)
    }
}

/// A list of names.
pub struct Names(pub Vec<String>);

impl View for Names {
    type V = Seq<Seq<char>>;

    open spec fn view(&self) -> Seq<Seq<char>> {
        texts(self.0@)
    }
}

/// What is known of the machine.
pub struct Facts {
    files: Table<MaybeText>,
    dirs: Table<Names>,
    tags: Table<Tags>,
    links: Table<MaybeText>,
    lengths: Table<Option<u64>>,
}

/// The contents of a list of [`Facts`]: each question that has been answered,
/// with its answer.
#[verifier::ext_equal]
pub ghost struct Knowledge {
    pub files: Map<Seq<char>, Option<Seq<char>>>,
    pub dirs: Map<Seq<char>, Seq<Seq<char>>>,
    pub tags: Map<Seq<char>, TagTexts>,
    pub links: Map<Seq<char>, Option<Seq<char>>>,
    pub lengths: Map<Seq<char>, Option<u64>>,
}

impl Knowledge {
    /// Whether what is known holds in `w`.
    pub open spec fn agrees(self, w: World) -> bool {
        &&& forall|p: Seq<char>| #[trigger]
            self.files.contains_key(p) ==> (w.file)(p) == self.files[p]
        &&& forall|p: Seq<char>| #[trigger] self.dirs.contains_key(p) ==> (w.dir)(p) == self.dirs[p]
        &&& forall|p: Seq<char>| #[trigger]
            self.tags.contains_key(p) ==> (w.tags)(p) == self.tags[p]
        &&& forall|p: Seq<char>| #[trigger]
            self.links.contains_key(p) ==> (w.canonical)(p) == self.links[p]
        &&& forall|p: Seq<char>| #[trigger]
            self.lengths.contains_key(p) ==> (w.length)(p) == self.lengths[p]
    }

    /// Whether `q` is answered.
    pub open spec fn knows(self, q: Query) -> bool {
        match q {
            Query::File(p) => self.files.contains_key(p),
            Query::Dir(p) => self.dirs.contains_key(p),
            Query::Tags(p) => self.tags.contains_key(p),
            Query::Canonical(p) => self.links.contains_key(p),
            Query::Length(p) => self.lengths.contains_key(p),
        }
    }
}

impl View for Facts {
    type V = Knowledge;

    closed spec fn view(&self) -> Knowledge {
        Knowledge {
            files: self.files@,
            dirs: self.dirs@,
            tags: self.tags@,
            links: self.links@,
            lengths: self.lengths@,
        }
    }
}

impl Facts {
    /// No facts.
    pub fn new() -> (f: Facts)
        ensures
            f@ == (Knowledge {
                files: Map::empty(),
                dirs: Map::empty(),
                tags: Map::empty(),
                links: Map::empty(),
                lengths: Map::empty(),
            }),
    {
        Facts {
            files: Table::new(),
            dirs: Table::new(),
            tags: Table::new(),
            links: Table::new(),
            lengths: Table::new(),
        }
    }

    /// Adds the text of the file `path`, none if it cannot be read.
    pub fn add_file(&mut self, path: &str, text: Option<String>)
        ensures
            final(self)@ == (Knowledge {
                files: old(self)@.files.insert(path@, opt_text(text)),
                ..old(self)@
            }),
    {
        self.files.insert(path, MaybeText(text));
    }

    /// Adds the names in the directory `path`, none if it cannot be read.
    pub fn add_dir(&mut self, path: &str, names: Vec<String>)
        ensures
            final(self)@ == (Knowledge {
                dirs: old(self)@.dirs.insert(path@, texts(names@)),
                ..old(self)@
            }),
    {
        self.dirs.insert(path, Names(names));
    }

    /// Adds the tags on `device`.
    pub fn add_tags(&mut self, device: &str, tags: Tags)
        ensures
            final(self)@ == (Knowledge {
                tags: old(self)@.tags.insert(device@, tags@),
                ..old(self)@
            }),
    {
        self.tags.insert(device, tags);
    }

    /// Adds the canonical form of `path`, none if nothing is there.
    pub fn add_canonical(&mut self, path: &str, canonical: Option<String>)
        ensures
            final(self)@ == (Knowledge {
                links: old(self)@.links.insert(path@, opt_text(canonical)),
                ..old(self)@
            }),
    {
        self.links.insert(path, MaybeText(canonical));
    }

    /// Adds the length of `path`, none if it is no regular file.
    pub fn add_length(&mut self, path: &str, length: Option<u64>)
        ensures
            final(self)@ == (Knowledge {
                lengths: old(self)@.lengths.insert(path@, length),
                ..old(self)@
            }),
    {
        self.lengths.insert(path, length);
    }

    /// The text of the file `path`.
    pub fn file(&self, path: &str) -> (r: Found<Option<&str>>)
        ensures
            match r {
                Found::Ready(text) => {
                    &&& self@.knows(Query::File(path@))
                    &&& forall|w: World| #[trigger]
                        self@.agrees(w) ==> (w.file)(path@) == text_of_ref(text)
                },
                Found::Need(q) => q@ == Query::File(path@) && !self@.knows(q@),
            },
    {
        match self.files.get(path) {
            Some(t) => {
                assert(self@.files.contains_key(path@));
                Found::Ready(
                    match &t.0 {
                        Some(s) => Some(s.as_str()),
                        None => None,
                    },
                )
            },
            None => Found::Need(Question::File { path: path.to_string() }),
        }
    }

    /// The names in the directory `path`.
    pub fn dir(&self, path: &str) -> (r: Found<&Vec<String>>)
        ensures
            match r {
                Found::Ready(names) => {
                    &&& self@.knows(Query::Dir(path@))
                    &&& forall|w: World| #[trigger]
                        self@.agrees(w) ==> (w.dir)(path@) == texts(names@)
                },
                Found::Need(q) => q@ == Query::Dir(path@) && !self@.knows(q@),
            },
    {
        match self.dirs.get(path) {
            Some(t) => {
                assert(self@.dirs.contains_key(path@));
                Found::Ready(&t.0)
            },
            None => Found::Need(Question::Dir { path: path.to_string() }),
        }
    }

    /// The tags on `device`.
    pub fn device_tags(&self, device: &str) -> (r: Found<&Tags>)
        ensures
            match r {
                Found::Ready(tags) => {
                    &&& self@.knows(Query::Tags(device@))
                    &&& forall|w: World| #[trigger] self@.agrees(w) ==> (w.tags)(device@) == tags@
                },
                Found::Need(q) => q@ == Query::Tags(device@) && !self@.knows(q@),
            },
    {
        match self.tags.get(device) {
            Some(t) => {
                assert(self@.tags.contains_key(device@));
                Found::Ready(t)
            },
            None => Found::Need(Question::Tags { device: device.to_string() }),
        }
    }

    /// The canonical form of `path`.
    pub fn canonical(&self, path: &str) -> (r: Found<Option<&str>>)
        ensures
            match r {
                Found::Ready(found) => {
                    &&& self@.knows(Query::Canonical(path@))
                    &&& forall|w: World| #[trigger]
                        self@.agrees(w) ==> (w.canonical)(path@) == text_of_ref(found)
                },
                Found::Need(q) => q@ == Query::Canonical(path@) && !self@.knows(q@),
            },
    {
        match self.links.get(path) {
            Some(t) => {
                assert(self@.links.contains_key(path@));
                Found::Ready(
                    match &t.0 {
                        Some(s) => Some(s.as_str()),
                        None => None,
                    },
                )
            },
            None => Found::Need(Question::Canonical { path: path.to_string() }),
        }
    }

    /// The length of the regular file `path`.
    pub fn length(&self, path: &str) -> (r: Found<Option<u64>>)
        ensures
            match r {
                Found::Ready(n) => {
                    &&& self@.knows(Query::Length(path@))
                    &&& forall|w: World| #[trigger] self@.agrees(w) ==> (w.length)(path@) == n
                },
                Found::Need(q) => q@ == Query::Length(path@) && !self@.knows(q@),
            },
    {
        match self.lengths.get(path) {
            Some(t) => {
                assert(self@.lengths.contains_key(path@));
                Found::Ready(*t)
            },
            None => Found::Need(Question::Length { path: path.to_string() }),
        }
    }
}

/// Whether `r` is what `f` gives in every world that `k` agrees with.
pub open spec fn holds<T>(k: Knowledge, r: T, f: spec_fn(World) -> T) -> bool {
    forall|w: World| #[trigger] k.agrees(w) ==> r == f(w)
}

/// The first of the questions `s` that is not answered; none if all are.
pub open spec fn first_open(k: Knowledge, s: Seq<Query>) -> Option<Query>
    decreases s.len(),
{
    if s.len() == 0 {
        None
    } else {
        match first_open(k, s.drop_last()) {
            Some(q) => Some(q),
            None => if k.knows(s.last()) {
                None
            } else {
                Some(s.last())
            },
        }
    }
}

/// Whether, of the questions that are read in a world, none is open, in every world
/// that `k` agrees with.
pub open spec fn settled(k: Knowledge, reads: spec_fn(World) -> Seq<Query>) -> bool {
    forall|w: World| #[trigger] k.agrees(w) ==> first_open(k, reads(w)) is None
}

/// Whether `q` is open and is, of the questions that are read in a world, the first
/// open one, in every world that `k` agrees with.
pub open spec fn asks(k: Knowledge, q: Query, reads: spec_fn(World) -> Seq<Query>) -> bool {
    &&& !k.knows(q)
    &&& forall|w: World| #[trigger] k.agrees(w) ==> first_open(k, reads(w)) == Some(q)
}

/// The questions that `f` reads for each of `items`, one after the other.
pub open spec fn reads_each(
    items: Seq<Seq<char>>,
    f: spec_fn(Seq<char>) -> Seq<Query>,
) -> Seq<Query>
    decreases items.len(),
{
    if items.len() == 0 {
        seq![]
    } else {
        reads_each(items.drop_last(), f) + f(items.last())
    }
}

/// One question is open unless it is answered.
pub(crate) proof fn lemma_open_one(k: Knowledge, q: Query)
    ensures
        first_open(k, seq![q]) == if k.knows(q) {
            None::<Query>
        } else {
            Some(q)
        },
{
    reveal_with_fuel(first_open, 2);
    assert(seq![q].drop_last() =~= seq![]);
}

/// The first open question of two lists is that of the first or, if there is none,
/// that of the second.
pub(crate) proof fn lemma_open_add(k: Knowledge, a: Seq<Query>, b: Seq<Query>)
    ensures
        first_open(k, a + b) == match first_open(k, a) {
            Some(q) => Some(q),
            None => first_open(k, b),
        },
    decreases b.len(),
{
    if b.len() == 0 {
        assert(a + b =~= a);
    } else {
        lemma_open_add(k, a, b.drop_last());
        assert((a + b).drop_last() =~= a + b.drop_last());
        assert((a + b).last() == b.last());
    }
}

/// The first open question of a list is its head, if that is not answered.
pub(crate) proof fn lemma_open_cons(k: Knowledge, q: Query, rest: Seq<Query>)
    ensures
        first_open(k, seq![q] + rest) == if k.knows(q) {
            first_open(k, rest)
        } else {
            Some(q)
        },
{
    lemma_open_one(k, q);
    lemma_open_add(k, seq![q], rest);
}

/// Where nothing is open for the items before `items[i]`, the first open question for
/// that item is the first for all.
pub(crate) proof fn lemma_open_each(
    k: Knowledge,
    items: Seq<Seq<char>>,
    f: spec_fn(Seq<char>) -> Seq<Query>,
    i: int,
)
    requires
        0 <= i < items.len(),
        first_open(k, reads_each(items.take(i), f)) is None,
    ensures
        first_open(k, reads_each(items.take(i + 1), f)) == first_open(k, f(items[i])),
        first_open(k, f(items[i])) is Some ==> first_open(k, reads_each(items, f)) == first_open(
            k,
            f(items[i]),
        ),
{
    let more = items.take(i + 1);
    assert(more.drop_last() =~= items.take(i));
    lemma_open_add(k, reads_each(items.take(i), f), f(items[i]));
    lemma_open_prefix(k, items, f, i + 1);
}

proof fn lemma_open_prefix(
    k: Knowledge,
    items: Seq<Seq<char>>,
    f: spec_fn(Seq<char>) -> Seq<Query>,
    n: int,
)
    requires
        0 <= n <= items.len(),
    ensures
        first_open(k, reads_each(items.take(n), f)) is Some ==> first_open(
            k,
            reads_each(items, f),
        ) == first_open(k, reads_each(items.take(n), f)),
    decreases items.len() - n,
{
    if n == items.len() {
        assert(items.take(n) =~= items);
    } else {
        let more = items.take(n + 1);
        assert(more.drop_last() =~= items.take(n));
        lemma_open_add(k, reads_each(items.take(n), f), f(more.last()));
        lemma_open_prefix(k, items, f, n + 1);
    }
}

/// The text that a reference to one holds.
pub open spec fn text_of_ref(s: Option<&str>) -> Option<Seq<char>> {
    match s {
        Some(t) => Some(t@),
        None => None,
    }
}

/// The first open question is one of those that are read, it is not answered, and all
/// before it are; and there is none just where all are answered.
pub proof fn law_first_open(k: Knowledge, s: Seq<Query>)
    ensures
        match first_open(k, s) {
            Some(q) => !k.knows(q) && exists|i: int|
                0 <= i < s.len() && #[trigger] s[i] == q && forall|j: int|
                    0 <= j < i ==> k.knows(#[trigger] s[j]),
            None => forall|j: int| 0 <= j < s.len() ==> k.knows(#[trigger] s[j]),
        },
    decreases s.len(),
{
    if s.len() > 0 {
        let front = s.drop_last();
        law_first_open(k, front);
        match first_open(k, front) {
            Some(q) => {
                let i = choose|i: int|
                    0 <= i < front.len() && #[trigger] front[i] == q && forall|j: int|
                        0 <= j < i ==> k.knows(#[trigger] front[j]);
                assert(s[i] == q);
                assert forall|j: int| 0 <= j < i implies k.knows(#[trigger] s[j]) by {
                    assert(front[j] == s[j]);
                }
            },
            None => {
                let last = s.len() - 1;
                assert forall|j: int| 0 <= j < last implies k.knows(#[trigger] s[j]) by {
                    assert(front[j] == s[j]);
                }
                assert(s[last] == s.last());
            },
        }
    }
}

/// A result is owed as soon as all that is read is answered: a query that reads,
/// in a world that the facts agree with, only what is known asks nothing.
pub proof fn law_answered_asks_nothing(
    k: Knowledge,
    w: World,
    q: Query,
    reads: spec_fn(World) -> Seq<Query>,
)
    requires
        k.agrees(w),
        forall|j: int| 0 <= j < reads(w).len() ==> k.knows(#[trigger] reads(w)[j]),
    ensures
        !asks(k, q, reads),
{
    law_first_open(k, reads(w));
}

/// What is known can be the case: there is a world that it holds in.
pub proof fn law_some_world_agrees(k: Knowledge)
    ensures
        exists|w: World| #[trigger] k.agrees(w),
{
    let w = World {
        file: |p: Seq<char>| k.files[p],
        dir: |p: Seq<char>| k.dirs[p],
        tags: |p: Seq<char>| k.tags[p],
        canonical: |p: Seq<char>| k.links[p],
        length: |p: Seq<char>| k.lengths[p],
    };
    assert(k.agrees(w));
}

} // verus!
