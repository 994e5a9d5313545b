//! Identifiers: short uppercase strings derived from integers, ordered as
//! strings.

use vstd::prelude::*;
use crate::sorted_map::MapKey;

verus! {

/// The character that encodes one base-26 digit of an id.
/// Digit 0 is written `'9'`, digits 1..=25 are `'A'..='Y'`.
pub open spec fn digit_char(d: nat) -> char {
    if d == 0 {
        '9'
    } else {
        ((65 + d - 1) as u8) as char
    }
}

/// The characters of the id made from `x`: its base-26 digits, least
/// significant first.
pub open spec fn id_chars(x: nat) -> Seq<char>
    decreases x,
{
    if x == 0 {
        Seq::empty()
    } else {
        seq![digit_char(x % 26)] + id_chars(x / 26)
    }
}

/// The lexicographic order on strings, as `str` orders them.
pub open spec fn text_lt(a: Seq<char>, b: Seq<char>) -> bool
    decreases a.len(),
{
    if a.len() == 0 {
        b.len() > 0
    } else if b.len() == 0 {
        false
    } else if a[0] != b[0] {
        (a[0] as int) < (b[0] as int)
    } else {
        text_lt(a.drop_first(), b.drop_first())
    }
}

pub proof fn lemma_text_lt_irreflexive(a: Seq<char>)
    ensures
        !text_lt(a, a),
    decreases a.len(),
{
    if a.len() > 0 {
        lemma_text_lt_irreflexive(a.drop_first());
    }
}

pub proof fn lemma_text_lt_transitive(a: Seq<char>, b: Seq<char>, c: Seq<char>)
    requires
        text_lt(a, b),
        text_lt(b, c),
    ensures
        text_lt(a, c),
    decreases a.len(),
{
    if a.len() > 0 && b.len() > 0 && c.len() > 0 {
        if a[0] == b[0] && b[0] == c[0] {
            lemma_text_lt_transitive(a.drop_first(), b.drop_first(), c.drop_first());
        }
    }
}

pub proof fn lemma_text_lt_total(a: Seq<char>, b: Seq<char>)
    ensures
        text_lt(a, b) || text_lt(b, a) || a == b,
    decreases a.len(),
{
    if a.len() > 0 && b.len() > 0 && a[0] == b[0] {
        lemma_text_lt_total(a.drop_first(), b.drop_first());
        if a.drop_first() == b.drop_first() {
            assert(a =~= seq![a[0]] + a.drop_first());
            assert(b =~= seq![b[0]] + b.drop_first());
        }
    } else if a.len() == 0 && b.len() == 0 {
        assert(a =~= b);
    } else if a.len() > 0 && b.len() > 0 {
        assert((a[0] as int) != (b[0] as int));
    }
}

proof fn lemma_digit_char_value(d: nat)
    requires
        d < 26,
    ensures
        (digit_char(d) as int) == if d == 0 {
            57
        } else {
            64 + d
        },
{
}

proof fn lemma_id_chars_unfold(x: nat)
    requires
        x > 0,
    ensures
        id_chars(x).len() > 0,
        id_chars(x)[0] == digit_char(x % 26),
        id_chars(x).drop_first() == id_chars(x / 26),
{
    let s = id_chars(x);
    assert(s == seq![digit_char(x % 26)] + id_chars(x / 26));
    assert(s.drop_first() =~= id_chars(x / 26));
}

/// Different integers make different ids.
pub proof fn lemma_id_chars_injective(x: nat, y: nat)
    requires
        id_chars(x) == id_chars(y),
    ensures
        x == y,
    decreases x,
{
    if x == 0 {
        if y > 0 {
            lemma_id_chars_unfold(y);
        }
    } else if y == 0 {
        lemma_id_chars_unfold(x);
    } else {
        lemma_id_chars_unfold(x);
        lemma_id_chars_unfold(y);
        lemma_digit_char_value(x % 26);
        lemma_digit_char_value(y % 26);
        assert(x % 26 == y % 26);
        lemma_id_chars_injective(x / 26, y / 26);
        assert(x == 26 * (x / 26) + x % 26);
        assert(y == 26 * (y / 26) + y % 26);
    }
}

fn digit_to_char(d: u32) -> (c: char)
    requires
        d < 26,
    ensures
        c == digit_char(d as nat),
{
    if d == 0 {
        '9'
    } else {
        let b: u8 = (65 + d - 1) as u8;
        b as char
    }
}

/// Builds a `String` holding exactly the given characters.
#[verifier::external_body]
pub(crate) fn string_from_chars(cs: &Vec<char>) -> (s: String)
    ensures
        s@ == cs@,
{
    cs.iter().collect()
}

/// An identifier: the short uppercase string made from an integer.
#[derive(Clone, Copy, Debug, PartialEq, Eq, Hash, Structural)]
pub struct Id {
    n: u32,
}

impl View for Id {
    type V = Seq<char>;

    closed spec fn view(&self) -> Seq<char> {
        id_chars(self.n as nat)
    }
}

impl Id {
    /// A fresh id, made from the next value of `counter`; the counter then
    /// moves on by one (wrapping, as an atomic add does).
    pub fn new(counter: &mut u32) -> (id: Id)
        ensures
            id@ == id_chars(*old(counter) as nat),
            *final(counter) == (if *old(counter) == u32::MAX {
                0
            } else {
                *old(counter) + 1
            }),
    {
        let x = *counter;
        *counter = counter.wrapping_add(1);
        Id::from_int(x)
    }

    /// The id made from the integer `x`.
    pub fn from_int(x: u32) -> (id: Id)
        ensures
            id@ == id_chars(x as nat),
    {
        Id { n: x }
    }

    /// The text of the id.
    pub fn to_text(&self) -> (s: String)
        ensures
            s@ == self@,
    {
        let mut x = self.n;
        let mut cs: Vec<char> = Vec::new();
        while x > 0
            invariant
                cs@ + id_chars(x as nat) == id_chars(self.n as nat),
            decreases x,
        {
            let c = digit_to_char(x % 26);
            proof {
                assert(id_chars(x as nat) == seq![c] + id_chars((x / 26) as nat));
                assert(cs@.push(c) + id_chars((x / 26) as nat) == cs@ + (seq![c] + id_chars(
                    (x / 26) as nat,
                )));
            }
            cs.push(c);
            x = x / 26;
        }
        proof {
            assert(cs@ + id_chars(0) == cs@);
        }
        string_from_chars(&cs)
    }

    /// Whether this id sorts before `other` as a string.
    pub fn text_less(&self, other: &Id) -> (r: bool)
        ensures
            r == text_lt(self@, other@),
    {
        let mut x = self.n;
        let mut y = other.n;
        while x > 0 && y > 0 && x % 26 == y % 26
            invariant
                text_lt(id_chars(x as nat), id_chars(y as nat)) == text_lt(self@, other@),
            decreases x,
        {
            proof {
                lemma_id_chars_unfold(x as nat);
                lemma_id_chars_unfold(y as nat);
            }
            x = x / 26;
            y = y / 26;
        }
        if x == 0 {
            proof {
                if y > 0 {
                    lemma_id_chars_unfold(y as nat);
                }
            }
            y > 0
        } else if y == 0 {
            proof {
                lemma_id_chars_unfold(x as nat);
            }
            false
        } else {
            proof {
                lemma_id_chars_unfold(x as nat);
                lemma_id_chars_unfold(y as nat);
                lemma_digit_char_value((x % 26) as nat);
                lemma_digit_char_value((y % 26) as nat);
            }
            x % 26 < y % 26
        }
    }
}

impl MapKey for Id {
    open spec fn key_lt(self, other: Self) -> bool {
        text_lt(self@, other@)
    }

    proof fn lemma_key_lt_irreflexive(a: Self) {
        lemma_text_lt_irreflexive(a@);
    }

    proof fn lemma_key_lt_transitive(a: Self, b: Self, c: Self) {
        lemma_text_lt_transitive(a@, b@, c@);
    }

    proof fn lemma_key_lt_total(a: Self, b: Self) {
        lemma_text_lt_total(a@, b@);
        if a@ == b@ {
            lemma_id_chars_injective(a.n as nat, b.n as nat);
        }
    }

    fn key_less(&self, other: &Self) -> (r: bool) {
        self.text_less(other)
    }

    fn key_same(&self, other: &Self) -> (r: bool) {
        self.n == other.n
    }

    fn key_copy(&self) -> (r: Self) {
        *self
    }
}

/// The id of a node.
#[derive(Clone, Copy, Debug, PartialEq, Eq, Hash, Structural)]
pub struct NodeId(pub Id);

/// The id of an agent.
#[derive(Clone, Copy, Debug, PartialEq, Eq, Hash, Structural)]
pub struct Agent(pub Id);

/// The hash of an op.
#[derive(Clone, Copy, Debug, PartialEq, Eq, Hash, Structural)]
pub struct OpHash(pub Id);

impl MapKey for NodeId {
    open spec fn key_lt(self, other: Self) -> bool {
        self.0.key_lt(other.0)
    }

    proof fn lemma_key_lt_irreflexive(a: Self) {
        Id::lemma_key_lt_irreflexive(a.0);
    }

    proof fn lemma_key_lt_transitive(a: Self, b: Self, c: Self) {
        Id::lemma_key_lt_transitive(a.0, b.0, c.0);
    }

    proof fn lemma_key_lt_total(a: Self, b: Self) {
        Id::lemma_key_lt_total(a.0, b.0);
    }

    fn key_less(&self, other: &Self) -> (r: bool) {
        self.0.key_less(&other.0)
    }

    fn key_same(&self, other: &Self) -> (r: bool) {
        self.0.key_same(&other.0)
    }

    fn key_copy(&self) -> (r: Self) {
        *self
    }
}

impl MapKey for OpHash {
    open spec fn key_lt(self, other: Self) -> bool {
        self.0.key_lt(other.0)
    }

    proof fn lemma_key_lt_irreflexive(a: Self) {
        Id::lemma_key_lt_irreflexive(a.0);
    }

    proof fn lemma_key_lt_transitive(a: Self, b: Self, c: Self) {
        Id::lemma_key_lt_transitive(a.0, b.0, c.0);
    }

    proof fn lemma_key_lt_total(a: Self, b: Self) {
        Id::lemma_key_lt_total(a.0, b.0);
    }

    fn key_less(&self, other: &Self) -> (r: bool) {
        self.0.key_less(&other.0)
    }

    fn key_same(&self, other: &Self) -> (r: bool) {
        self.0.key_same(&other.0)
    }

    fn key_copy(&self) -> (r: Self) {
        *self
    }
}

/// An op: its hash and the hashes of the ops it depends on.
pub struct Op {
    pub hash: OpHash,
    pub deps: Vec<OpHash>,
}

/// An op as a value.
pub struct OpView {
    pub hash: OpHash,
    pub deps: Seq<OpHash>,
}

impl View for Op {
    type V = OpView;

    open spec fn view(&self) -> OpView {
        OpView { hash: self.hash, deps: self.deps@ }
    }
}

impl Op {
    pub fn new(hash: OpHash, deps: Vec<OpHash>) -> (op: Op)
        ensures
            op.hash == hash,
            op.deps@ == deps@,
    {
        Op { hash, deps }
    }

    /// A copy of the op.
    pub fn duplicate(&self) -> (r: Op)
        ensures
            r@ == self@,
    {
        let mut deps: Vec<OpHash> = Vec::new();
        let mut i: usize = 0;
        while i < self.deps.len()
            invariant
                i <= self.deps.len(),
                deps@ == self.deps@.take(i as int),
            decreases self.deps.len() - i,
        {
            deps.push(self.deps[i]);
            proof {
                assert(self.deps@.take(i + 1) =~= self.deps@.take(i as int).push(self.deps@[i as int]));
            }
            i = i + 1;
        }
        proof {
            assert(self.deps@.take(self.deps.len() as int) =~= self.deps@);
        }
        Op { hash: self.hash, deps }
    }

    /// The hash of the op.
    pub fn op_hash(&self) -> (h: OpHash)
        ensures
            h == self.hash,
    {
        self.hash
    }
}

} // verus!
