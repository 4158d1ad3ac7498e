//! Locations inside a nested document, for error messages.
//!
//! A `Path` is a chain of links that points backwards, from the innermost
//! step a traversal has taken to the `Root` it started from. Each link
//! borrows its parent, so a traversal extends the chain on its own stack
//! and drops the links again as it unwinds.
use vstd::prelude::*;
use vstd::string::*;

verus! {

/// One step of a location, as the abstract model of a link of a `Path`.
pub ghost enum Step {
    /// An element of a sequence, at this position.
    Index(nat),
    /// The value of a mapping under this key.
    Key(Seq<char>),
    /// A followed reference to an anchor.
    Alias,
    /// A step whose structural kind is not known.
    Unknown,
}

/// Where a value lives inside a nested document.
#[derive(Clone, Copy, Debug)]
pub enum Path<'a> {
    /// The document itself.
    Root,
    /// Element `index` of the sequence at `parent`.
    Sequence { parent: &'a Path<'a>, index: usize },
    /// Value under `key` of the mapping at `parent`.
    Mapping { parent: &'a Path<'a>, key: &'a str },
    /// The target of a reference found at `parent`.
    Alias { parent: &'a Path<'a> },
    /// A step of unknown kind below `parent`.
    Unknown { parent: &'a Path<'a> },
}

/// The steps from the root outwards; the root itself has none.
pub open spec fn steps_of(p: Path) -> Seq<Step>
    decreases p,
{
    match p {
        Path::Root => Seq::empty(),
        Path::Sequence { parent, index } => steps_of(*parent).push(Step::Index(index as nat)),
        Path::Mapping { parent, key } => steps_of(*parent).push(Step::Key(key@)),
        Path::Alias { parent } => steps_of(*parent).push(Step::Alias),
        Path::Unknown { parent } => steps_of(*parent).push(Step::Unknown),
    }
}

impl<'a> View for Path<'a> {
    type V = Seq<Step>;

    open spec fn view(&self) -> Seq<Step> {
        steps_of(*self)
    }
}

/// The character of a decimal digit.
pub open spec fn digit_char(d: nat) -> char {
    if d == 0 {
        '0'
    } else if d == 1 {
        '1'
    } else if d == 2 {
        '2'
    } else if d == 3 {
        '3'
    } else if d == 4 {
        '4'
    } else if d == 5 {
        '5'
    } else if d == 6 {
        '6'
    } else if d == 7 {
        '7'
    } else if d == 8 {
        '8'
    } else {
        '9'
    }
}

/// `n` written in decimal, without leading zeros.
pub open spec fn decimal(n: nat) -> Seq<char>
    decreases n,
{
    if n < 10 {
        seq![digit_char(n)]
    } else {
        decimal(n / 10).push(digit_char(n % 10))
    }
}

/// What a location contributes as the ancestor of a deeper one: nothing
/// for the root, its own rendering otherwise.
pub open spec fn contribution_of(steps: Seq<Step>) -> Seq<char>
    decreases steps.len(),
{
    if steps.len() == 0 {
        Seq::empty()
    } else {
        let prefix = contribution_of(steps.drop_last());
        match steps.last() {
            Step::Index(i) => if prefix.len() == 0 {
                seq!['\\', '['] + decimal(i) + seq!['\\', ']']
            } else {
                prefix.push('.') + seq!['\\', '['] + decimal(i) + seq!['\\', ']']
            },
            Step::Key(k) => if prefix.len() == 0 {
                k
            } else {
                prefix.push('.') + k
            },
            Step::Alias => if prefix.len() == 0 {
                Seq::empty()
            } else {
                prefix.push('.')
            },
            Step::Unknown => if prefix.len() == 0 {
                seq!['?']
            } else {
                prefix + seq!['.', '?']
            },
        }
    }
}

/// The text that shows a location: `.` for the root itself.
pub open spec fn rendering_of(steps: Seq<Step>) -> Seq<char> {
    if steps.len() == 0 {
        seq!['.']
    } else {
        contribution_of(steps)
    }
}

/// Two extended sequences are equal exactly when their prefixes and their
/// last elements are.
proof fn lemma_push_eq(s: Seq<Step>, t: Seq<Step>, a: Step, b: Step)
    ensures
        (s.push(a) == t.push(b)) == (s == t && a == b),
{
    if s.push(a) == t.push(b) {
        assert(s =~= s.push(a).drop_last());
        assert(t =~= t.push(b).drop_last());
        assert(a == s.push(a).last());
    }
}

/// The text of one decimal digit.
fn digit_text(d: usize) -> (r: &'static str)
    requires
        d < 10,
    ensures
        r@ == seq![digit_char(d as nat)],
{
    proof {
        reveal_strlit("0");
        reveal_strlit("1");
        reveal_strlit("2");
        reveal_strlit("3");
        reveal_strlit("4");
        reveal_strlit("5");
        reveal_strlit("6");
        reveal_strlit("7");
        reveal_strlit("8");
        reveal_strlit("9");
    }
    let r = if d == 0 {
        "0"
    } else if d == 1 {
        "1"
    } else if d == 2 {
        "2"
    } else if d == 3 {
        "3"
    } else if d == 4 {
        "4"
    } else if d == 5 {
        "5"
    } else if d == 6 {
        "6"
    } else if d == 7 {
        "7"
    } else if d == 8 {
        "8"
    } else {
        "9"
    };
    assert(r@ =~= seq![digit_char(d as nat)]);
    r
}

/// Appends `n` in decimal to `out`.
fn append_decimal(out: &mut String, n: usize)
    ensures
        final(out)@ == old(out)@ + decimal(n as nat),
    decreases n,
{
    if n >= 10 {
        append_decimal(out, n / 10);
    }
    out.append(digit_text(n % 10));
    assert(final(out)@ =~= old(out)@ + decimal(n as nat));
}

/// Whether two texts hold the same characters.
fn same_text(a: &str, b: &str) -> (r: bool)
    ensures
        r == (a@ == b@),
{
    let n = a.unicode_len();
    if n != b.unicode_len() {
        return false;
    }
    let mut i: usize = 0;
    while i < n
        invariant
            n == a@.len(),
            n == b@.len(),
            i <= n,
            a@.subrange(0, i as int) == b@.subrange(0, i as int),
        decreases n - i,
    {
        if a.get_char(i) != b.get_char(i) {
            return false;
        }
        assert(a@.subrange(0, i + 1) =~= a@.subrange(0, i as int).push(a@[i as int]));
        assert(b@.subrange(0, i + 1) =~= b@.subrange(0, i as int).push(b@[i as int]));
        i = i + 1;
    }
    assert(a@ =~= a@.subrange(0, n as int));
    assert(b@ =~= b@.subrange(0, n as int));
    true
}

impl<'a> Path<'a> {
    /// The location of the whole document.
    pub fn root() -> (r: Path<'a>)
        ensures
            r is Root,
            r@ == Seq::<Step>::empty(),
    {
        Path::Root
    }

    /// The location of element `index` of the sequence at `parent`.
    pub fn sequence(parent: &'a Path<'a>, index: usize) -> (r: Path<'a>)
        ensures
            r == (Path::Sequence { parent, index }),
            r@ == parent@.push(Step::Index(index as nat)),
    {
        Path::Sequence { parent, index }
    }

    /// The location of the value under `key` of the mapping at `parent`.
    pub fn mapping(parent: &'a Path<'a>, key: &'a str) -> (r: Path<'a>)
        ensures
            r == (Path::Mapping { parent, key }),
            r@ == parent@.push(Step::Key(key@)),
    {
        Path::Mapping { parent, key }
    }

    /// The location reached by following a reference found at `parent`.
    pub fn alias(parent: &'a Path<'a>) -> (r: Path<'a>)
        ensures
            r == (Path::Alias { parent }),
            r@ == parent@.push(Step::Alias),
    {
        Path::Alias { parent }
    }

    /// The location one step of unknown kind below `parent`.
    pub fn unknown(parent: &'a Path<'a>) -> (r: Path<'a>)
        ensures
            r == (Path::Unknown { parent }),
            r@ == parent@.push(Step::Unknown),
    {
        Path::Unknown { parent }
    }

    /// The kind of a link decides whether it has steps, and of which kind
    /// its last step is.
    proof fn lemma_view_shape(&self)
        ensures
            self is Root <==> self@.len() == 0,
            self is Sequence ==> self@.last() is Index,
            self is Mapping ==> self@.last() is Key,
            self is Alias ==> self@.last() is Alias,
            self is Unknown ==> self@.last() is Unknown,
    {
    }

    /// What this location contributes as the ancestor of a deeper one.
    fn contribution(&self) -> (r: String)
        ensures
            r@ == contribution_of(self@),
        decreases self,
    {
        match self {
            Path::Root => String::new(),
            Path::Sequence { parent, index } => {
                let mut s = parent.contribution();
                proof {
                    reveal_strlit(".");
                    reveal_strlit("\\[");
                    reveal_strlit("\\]");
                }
                if !s.as_str().is_empty() {
                    s.append(".");
                }
                s.append("\\[");
                append_decimal(&mut s, *index);
                s.append("\\]");
                assert(self@.drop_last() =~= parent@);
                assert(s@ =~= contribution_of(self@));
                s
            },
            Path::Mapping { parent, key } => {
                let mut s = parent.contribution();
                proof {
                    reveal_strlit(".");
                }
                if !s.as_str().is_empty() {
                    s.append(".");
                }
                s.append(key);
                assert(self@.drop_last() =~= parent@);
                assert(s@ =~= contribution_of(self@));
                s
            },
            Path::Alias { parent } => {
                let mut s = parent.contribution();
                proof {
                    reveal_strlit(".");
                }
                if !s.as_str().is_empty() {
                    s.append(".");
                }
                assert(self@.drop_last() =~= parent@);
                assert(s@ =~= contribution_of(self@));
                s
            },
            Path::Unknown { parent } => {
                let mut s = parent.contribution();
                proof {
                    reveal_strlit("?");
                    reveal_strlit(".?");
                }
                if s.as_str().is_empty() {
                    s.append("?");
                } else {
                    s.append(".?");
                }
                assert(self@.drop_last() =~= parent@);
                assert(s@ =~= contribution_of(self@));
                s
            },
        }
    }

    /// The human-readable text of this location, such as `\[1\].first..?`.
    pub fn render(&self) -> (r: String)
        ensures
            r@ == rendering_of(self@),
    {
        match self {
            Path::Root => {
                proof {
                    reveal_strlit(".");
                }
                let r = String::from_str(".");
                assert(r@ =~= seq!['.']);
                r
            },
            _ => self.contribution(),
        }
    }

    /// Whether two locations take the same steps with the same payloads.
    fn same_steps(&self, other: &Path<'a>) -> (r: bool)
        ensures
            r == (self@ == other@),
        decreases self,
    {
        match (self, other) {
            (Path::Root, Path::Root) => true,
            (Path::Sequence { parent: p, index: i }, Path::Sequence { parent: q, index: j }) => {
                proof {
                    lemma_push_eq(p@, q@, Step::Index(*i as nat), Step::Index(*j as nat));
                }
                *i == *j && p.same_steps(q)
            },
            (Path::Mapping { parent: p, key: k }, Path::Mapping { parent: q, key: l }) => {
                proof {
                    lemma_push_eq(p@, q@, Step::Key(k@), Step::Key(l@));
                }
                same_text(k, l) && p.same_steps(q)
            },
            (Path::Alias { parent: p }, Path::Alias { parent: q }) => {
                proof {
                    lemma_push_eq(p@, q@, Step::Alias, Step::Alias);
                }
                p.same_steps(q)
            },
            (Path::Unknown { parent: p }, Path::Unknown { parent: q }) => {
                proof {
                    lemma_push_eq(p@, q@, Step::Unknown, Step::Unknown);
                }
                p.same_steps(q)
            },
            _ => {
                proof {
                    self.lemma_view_shape();
                    other.lemma_view_shape();
                }
                false
            },
        }
    }
}

impl<'a> PartialEq for Path<'a> {
    fn eq(&self, other: &Path<'a>) -> (r: bool) {
        self.same_steps(other)
    }
}

impl<'a> vstd::std_specs::cmp::PartialEqSpecImpl for Path<'a> {
    open spec fn obeys_eq_spec() -> bool {
        true
    }

    open spec fn eq_spec(&self, other: &Path<'a>) -> bool {
        self@ == other@
    }
}

/// An element of a sequence directly below the root renders as its index in
/// decimal, between an escaped `[` and an escaped `]`.
pub proof fn lemma_index_below_root(index: usize)
    ensures
        rendering_of((Path::Sequence { parent: &Path::Root, index })@) == seq!['\\', '[']
            + decimal(index as nat) + seq!['\\', ']'],
{
    let p = Path::Sequence { parent: &Path::Root, index };
    assert(steps_of(Path::Root) == Seq::<Step>::empty());
    assert(p@ == seq![Step::Index(index as nat)]);
    assert(p@.drop_last() =~= Seq::<Step>::empty());
    assert(contribution_of(Seq::<Step>::empty()) == Seq::<char>::empty());
    assert(rendering_of(p@) =~= seq!['\\', '['] + decimal(index as nat) + seq!['\\', ']']);
}

/// A value of a mapping directly below the root renders as its key alone,
/// which is empty for the empty key.
pub proof fn lemma_key_below_root(key: &str)
    ensures
        rendering_of((Path::Mapping { parent: &Path::Root, key })@) == key@,
{
    let p = Path::Mapping { parent: &Path::Root, key };
    assert(steps_of(Path::Root) == Seq::<Step>::empty());
    assert(p@ == seq![Step::Key(key@)]);
    assert(p@.drop_last() =~= Seq::<Step>::empty());
    assert(contribution_of(Seq::<Step>::empty()) == Seq::<char>::empty());
}

/// Two links are equal exactly when they are of the same kind, carry the
/// same payload and have equal parents: a differing index or key at any
/// depth makes two chains unequal.
pub proof fn lemma_link_equality<'a>(
    p: &'a Path<'a>,
    q: &'a Path<'a>,
    i: usize,
    j: usize,
    k: &'a str,
    l: &'a str,
)
    ensures
        (Path::Sequence { parent: p, index: i })@ == (Path::Sequence { parent: q, index: j })@
            <==> (p@ == q@ && i == j),
        (Path::Mapping { parent: p, key: k })@ == (Path::Mapping { parent: q, key: l })@ <==> (
        p@ == q@ && k@ == l@),
        (Path::Alias { parent: p })@ == (Path::Alias { parent: q })@ <==> p@ == q@,
        (Path::Unknown { parent: p })@ == (Path::Unknown { parent: q })@ <==> p@ == q@,
        (Path::Sequence { parent: p, index: i })@ != (Path::Mapping { parent: q, key: l })@,
        (Path::Alias { parent: p })@ != (Path::Unknown { parent: q })@,
{
    lemma_push_eq(p@, q@, Step::Index(i as nat), Step::Index(j as nat));
    lemma_push_eq(p@, q@, Step::Key(k@), Step::Key(l@));
    lemma_push_eq(p@, q@, Step::Alias, Step::Alias);
    lemma_push_eq(p@, q@, Step::Unknown, Step::Unknown);
    lemma_push_eq(p@, q@, Step::Index(i as nat), Step::Key(l@));
    lemma_push_eq(p@, q@, Step::Alias, Step::Unknown);
}

/// Rendering depends on the steps of a chain alone: equal chains, and so
/// the same chain rendered twice, give the same text.
pub proof fn lemma_render_is_function_of_steps(a: Path, b: Path)
    requires
        a@ == b@,
    ensures
        rendering_of(a@) == rendering_of(b@),
{
}

} // verus!
