//! What the library asks of the keys and values it replicates.
//!
//! Contracts speak of keys and values through their views, so two copies of the same string or the
//! same byte vector are one key, and one value, to every contract in the crate.

use vstd::prelude::*;

verus! {

/// Where one key stands relative to another in key order.
#[derive(Clone, Copy, Debug, PartialEq, Eq, Structural)]
pub enum Placement {
    /// Strictly smaller.
    Before,
    /// The same key.
    Same,
    /// Strictly larger.
    After,
}

/// A type whose values can be copied without changing what they stand for.
pub trait Duplicate: View + Sized {
    /// An owned copy with the same view.
    fn duplicate(&self) -> (copy: Self)
        ensures
            copy@ == self@,
    ;
}

/// A key: totally ordered, and copyable.
pub trait Key: Duplicate {
    /// `a` comes strictly before `b` in key order.
    spec fn precedes(a: <Self as View>::V, b: <Self as View>::V) -> bool;

    /// No key precedes itself.
    proof fn precedes_irreflexive(a: <Self as View>::V)
        ensures
            !Self::precedes(a, a),
    ;

    /// Key order is transitive.
    proof fn precedes_transitive(
        a: <Self as View>::V,
        b: <Self as View>::V,
        c: <Self as View>::V,
    )
        requires
            Self::precedes(a, b),
            Self::precedes(b, c),
        ensures
            Self::precedes(a, c),
    ;

    /// Any two keys are comparable.
    proof fn precedes_total(a: <Self as View>::V, b: <Self as View>::V)
        ensures
            a == b || Self::precedes(a, b) || Self::precedes(b, a),
    ;

    /// Compare two keys.
    fn place(&self, other: &Self) -> (placement: Placement)
        ensures
            placement is Before <==> Self::precedes(self@, other@),
            placement is Same <==> self@ == other@,
            placement is After <==> Self::precedes(other@, self@),
    ;
}

/// A replicated value: copyable, comparable by content, and with a known wire size.
pub trait Value: Duplicate {
    /// The number of bytes the send path encodes this content to.
    spec fn encoded_len(content: <Self as View>::V) -> nat;

    /// Whether two values hold the same content.
    fn same_content(&self, other: &Self) -> (same: bool)
        ensures
            same == (self@ == other@),
    ;

    /// The encoded size in bytes, capped at `usize::MAX`.
    fn encoded_size(&self) -> (size: usize)
        ensures
            size as nat == capped(Self::encoded_len(self@)),
    ;
}

/// `n`, or `usize::MAX` where `n` does not fit a `usize`.
pub open spec fn capped(n: nat) -> nat {
    if n <= usize::MAX as nat {
        n
    } else {
        usize::MAX as nat
    }
}

/// Bytes a variable-length integer takes on the wire: one for small values, then a marker byte
/// followed by the narrowest of two, four or eight bytes that holds it.
pub open spec fn varint_len(n: nat) -> nat {
    if n < 251 {
        1
    } else if n <= 0xffff {
        3
    } else if n <= 0xffff_ffff {
        5
    } else {
        9
    }
}

/// The wire form of a signed integer: non-negative values map to even numbers, negative values to
/// odd ones, so that small magnitudes stay small.
pub open spec fn zigzag(n: int) -> nat {
    if n >= 0 {
        (2 * n) as nat
    } else {
        (-2 * n - 1) as nat
    }
}

/// A length prefix followed by that many bytes.
pub open spec fn prefixed_len(n: nat) -> nat {
    varint_len(n) + n
}

/// See [`varint_len`].
pub fn varint_size(n: u64) -> (size: usize)
    ensures
        size as nat == varint_len(n as nat),
{
    if n < 251 {
        1
    } else if n <= 0xffff {
        3
    } else if n <= 0xffff_ffff {
        5
    } else {
        9
    }
}

/// See [`prefixed_len`]; capped at `usize::MAX`.
pub fn prefixed_size(len: usize) -> (size: usize)
    ensures
        size as nat == capped(prefixed_len(len as nat)),
{
    varint_size(len as u64).saturating_add(len)
}

// ---------------------------------------------------------------------------------------------
// Integers
// ---------------------------------------------------------------------------------------------

impl Duplicate for () {
    fn duplicate(&self) -> (copy: Self) {
    }
}

impl Value for () {
    open spec fn encoded_len(content: ()) -> nat {
        0
    }

    fn same_content(&self, other: &Self) -> (same: bool) {
        true
    }

    fn encoded_size(&self) -> (size: usize) {
        0
    }
}

impl Duplicate for u8 {
    fn duplicate(&self) -> (copy: Self) {
        *self
    }
}

impl Key for u8 {
    open spec fn precedes(a: u8, b: u8) -> bool {
        a < b
    }

    proof fn precedes_irreflexive(a: u8) {
    }

    proof fn precedes_transitive(a: u8, b: u8, c: u8) {
    }

    proof fn precedes_total(a: u8, b: u8) {
    }

    fn place(&self, other: &Self) -> (placement: Placement) {
        if *self < *other {
            Placement::Before
        } else if *self == *other {
            Placement::Same
        } else {
            Placement::After
        }
    }
}

impl Value for u8 {
    open spec fn encoded_len(content: u8) -> nat {
        1
    }

    fn same_content(&self, other: &Self) -> (same: bool) {
        *self == *other
    }

    fn encoded_size(&self) -> (size: usize) {
        1
    }
}

impl Duplicate for u32 {
    fn duplicate(&self) -> (copy: Self) {
        *self
    }
}

impl Key for u32 {
    open spec fn precedes(a: u32, b: u32) -> bool {
        a < b
    }

    proof fn precedes_irreflexive(a: u32) {
    }

    proof fn precedes_transitive(a: u32, b: u32, c: u32) {
    }

    proof fn precedes_total(a: u32, b: u32) {
    }

    fn place(&self, other: &Self) -> (placement: Placement) {
        if *self < *other {
            Placement::Before
        } else if *self == *other {
            Placement::Same
        } else {
            Placement::After
        }
    }
}

impl Value for u32 {
    open spec fn encoded_len(content: u32) -> nat {
        varint_len(content as nat)
    }

    fn same_content(&self, other: &Self) -> (same: bool) {
        *self == *other
    }

    fn encoded_size(&self) -> (size: usize) {
        varint_size(*self as u64)
    }
}

impl Duplicate for u64 {
    fn duplicate(&self) -> (copy: Self) {
        *self
    }
}

impl Key for u64 {
    open spec fn precedes(a: u64, b: u64) -> bool {
        a < b
    }

    proof fn precedes_irreflexive(a: u64) {
    }

    proof fn precedes_transitive(a: u64, b: u64, c: u64) {
    }

    proof fn precedes_total(a: u64, b: u64) {
    }

    fn place(&self, other: &Self) -> (placement: Placement) {
        if *self < *other {
            Placement::Before
        } else if *self == *other {
            Placement::Same
        } else {
            Placement::After
        }
    }
}

impl Value for u64 {
    open spec fn encoded_len(content: u64) -> nat {
        varint_len(content as nat)
    }

    fn same_content(&self, other: &Self) -> (same: bool) {
        *self == *other
    }

    fn encoded_size(&self) -> (size: usize) {
        varint_size(*self)
    }
}

impl Duplicate for i32 {
    fn duplicate(&self) -> (copy: Self) {
        *self
    }
}

impl Key for i32 {
    open spec fn precedes(a: i32, b: i32) -> bool {
        a < b
    }

    proof fn precedes_irreflexive(a: i32) {
    }

    proof fn precedes_transitive(a: i32, b: i32, c: i32) {
    }

    proof fn precedes_total(a: i32, b: i32) {
    }

    fn place(&self, other: &Self) -> (placement: Placement) {
        if *self < *other {
            Placement::Before
        } else if *self == *other {
            Placement::Same
        } else {
            Placement::After
        }
    }
}

impl Value for i32 {
    open spec fn encoded_len(content: i32) -> nat {
        varint_len(zigzag(content as int))
    }

    fn same_content(&self, other: &Self) -> (same: bool) {
        *self == *other
    }

    fn encoded_size(&self) -> (size: usize) {
        let n: i64 = *self as i64;
        if n >= 0 {
            varint_size((2 * n) as u64)
        } else {
            let below: i64 = -1 - n;
            varint_size((2 * below + 1) as u64)
        }
    }
}

// ---------------------------------------------------------------------------------------------
// Byte vectors
// ---------------------------------------------------------------------------------------------

impl Duplicate for Vec<u8> {
    fn duplicate(&self) -> (copy: Self) {
        let mut copy: Vec<u8> = Vec::new();
        let mut i: usize = 0;
        while i < self.len()
            invariant
                i <= self@.len(),
                copy@ == self@.take(i as int),
            decreases self@.len() - i,
        {
            copy.push(self[i]);
            assert(copy@ =~= self@.take(i + 1));
            i = i + 1;
        }
        assert(self@.take(i as int) =~= self@);
        copy
    }
}

impl Value for Vec<u8> {
    open spec fn encoded_len(content: Seq<u8>) -> nat {
        prefixed_len(content.len())
    }

    fn same_content(&self, other: &Self) -> (same: bool) {
        if self.len() != other.len() {
            return false;
        }
        let mut i: usize = 0;
        while i < self.len()
            invariant
                self@.len() == other@.len(),
                i <= self@.len(),
                forall|j: int| 0 <= j < i ==> self@[j] == other@[j],
            decreases self@.len() - i,
        {
            if self[i] != other[i] {
                return false;
            }
            i = i + 1;
        }
        assert(self@ =~= other@);
        true
    }

    fn encoded_size(&self) -> (size: usize) {
        prefixed_size(self.len())
    }
}

// ---------------------------------------------------------------------------------------------
// Strings
// ---------------------------------------------------------------------------------------------

/// Dictionary order on strings: the shorter of two strings that agree so far comes first, else the
/// first differing character decides.
pub open spec fn dictionary_before(a: Seq<char>, b: Seq<char>) -> bool {
    exists|i: int| #[trigger] parts_at(a, b, i)
}

/// `a` and `b` agree below `i`, and at `i` either `a` ends first or holds the smaller character.
pub open spec fn parts_at(a: Seq<char>, b: Seq<char>, i: int) -> bool {
    &&& 0 <= i < b.len()
    &&& i <= a.len()
    &&& forall|j: int| 0 <= j < i ==> a[j] == b[j]
    &&& i == a.len() || (a[i] as int) < (b[i] as int)
}

/// Two strings first part at the length of their longest common prefix.
proof fn lemma_dictionary_total(a: Seq<char>, b: Seq<char>, from: int)
    requires
        0 <= from <= a.len(),
        from <= b.len(),
        forall|j: int| 0 <= j < from ==> a[j] == b[j],
    ensures
        a == b || dictionary_before(a, b) || dictionary_before(b, a),
    decreases a.len() - from,
{
    if from == a.len() {
        if from == b.len() {
            assert(a =~= b);
        } else {
            assert(parts_at(a, b, from));
        }
    } else if from == b.len() {
        assert(parts_at(b, a, from));
    } else if a[from] == b[from] {
        lemma_dictionary_total(a, b, from + 1);
    } else if (a[from] as int) < (b[from] as int) {
        assert(parts_at(a, b, from));
    } else {
        assert(parts_at(b, a, from));
    }
}

/// At most one of "before", "same" and "after" holds of two strings.
proof fn lemma_dictionary_exclusive(a: Seq<char>, b: Seq<char>)
    requires
        dictionary_before(a, b),
    ensures
        !dictionary_before(b, a),
        a != b,
{
    let i = choose|i: int| #[trigger] parts_at(a, b, i);
    if dictionary_before(b, a) {
        let j = choose|j: int| #[trigger] parts_at(b, a, j);
        if i < j {
            assert(b[i] == a[i]);
        } else if j < i {
            assert(a[j] == b[j]);
        }
    }
}

impl Duplicate for String {
    fn duplicate(&self) -> (copy: Self) {
        self.clone()
    }
}

impl Key for String {
    open spec fn precedes(a: Seq<char>, b: Seq<char>) -> bool {
        dictionary_before(a, b)
    }

    proof fn precedes_irreflexive(a: Seq<char>) {
    }

    proof fn precedes_transitive(a: Seq<char>, b: Seq<char>, c: Seq<char>) {
        let i = choose|i: int| #[trigger] parts_at(a, b, i);
        let j = choose|j: int| #[trigger] parts_at(b, c, j);
        let k: int = if i < j {
            i
        } else {
            j
        };
        assert(parts_at(a, c, k));
    }

    proof fn precedes_total(a: Seq<char>, b: Seq<char>) {
        lemma_dictionary_total(a, b, 0);
    }

    fn place(&self, other: &Self) -> (placement: Placement) {
        let a: &str = self.as_str();
        let b: &str = other.as_str();
        let a_len: usize = a.unicode_len();
        let b_len: usize = b.unicode_len();
        let mut i: usize = 0;
        while i < a_len && i < b_len
            invariant
                a@ == self@,
                b@ == other@,
                a_len == a@.len(),
                b_len == b@.len(),
                i <= a_len,
                i <= b_len,
                forall|j: int| 0 <= j < i ==> a@[j] == b@[j],
            decreases a_len - i,
        {
            let x: char = a.get_char(i);
            let y: char = b.get_char(i);
            if x != y {
                if (x as u32) < (y as u32) {
                    proof {
                        assert(parts_at(self@, other@, i as int));
                        lemma_dictionary_exclusive(self@, other@);
                    }
                    return Placement::Before;
                }
                proof {
                    assert(parts_at(other@, self@, i as int));
                    lemma_dictionary_exclusive(other@, self@);
                }
                return Placement::After;
            }
            i = i + 1;
        }
        if i < b_len {
            proof {
                assert(parts_at(self@, other@, i as int));
                lemma_dictionary_exclusive(self@, other@);
            }
            Placement::Before
        } else if i < a_len {
            proof {
                assert(parts_at(other@, self@, i as int));
                lemma_dictionary_exclusive(other@, self@);
            }
            Placement::After
        } else {
            assert(self@ =~= other@);
            Placement::Same
        }
    }
}

impl Value for String {
    open spec fn encoded_len(content: Seq<char>) -> nat {
        prefixed_len(vstd::utf8::encode_utf8(content).len())
    }

    fn same_content(&self, other: &Self) -> (same: bool) {
        *self == *other
    }

    fn encoded_size(&self) -> (size: usize) {
        let bytes: Vec<u8> = self.as_str().as_bytes_vec();
        prefixed_size(bytes.len())
    }
}

// ---------------------------------------------------------------------------------------------
// What keys and sizes amount to
// ---------------------------------------------------------------------------------------------

/// Integer keys come in the order of the numbers.
pub proof fn integers_are_ordered_as_numbers(a: u8, b: u8, c: u32, d: u32, e: u64, f: u64, g: i32, h: i32)
    ensures
        <u8 as Key>::precedes(a, b) <==> b - a > 0,
        <u32 as Key>::precedes(c, d) <==> d - c > 0,
        <u64 as Key>::precedes(e, f) <==> f - e > 0,
        <i32 as Key>::precedes(g, h) <==> h - g > 0,
{
}

/// Strings come in dictionary order: one comes before any longer one that begins with it, and where
/// two agree up to some place, the smaller character there decides, whatever follows.
pub proof fn strings_are_ordered_as_in_a_dictionary(
    shared: Seq<char>,
    x: char,
    y: char,
    tail: Seq<char>,
    other: Seq<char>,
)
    ensures
        <String as Key>::precedes(shared, shared.push(x) + tail),
        !<String as Key>::precedes(shared.push(x) + tail, shared),
        (x as int) < (y as int) ==> <String as Key>::precedes(shared.push(x) + tail, shared.push(y) + other)
            && !<String as Key>::precedes(shared.push(y) + other, shared.push(x) + tail),
{
    let n = shared.len() as int;
    let a = shared.push(x) + tail;
    let b = shared.push(y) + other;
    assert(parts_at(shared, a, n));
    lemma_dictionary_exclusive(shared, a);
    if (x as int) < (y as int) {
        assert(a[n] == x && b[n] == y);
        assert(parts_at(a, b, n));
        lemma_dictionary_exclusive(a, b);
    }
}

/// A number below 251 takes one byte; any other takes a marker byte and the narrowest of two, four
/// or eight bytes that holds it.
pub proof fn varints_are_as_short_as_can_be(n: nat)
    ensures
        varint_len(n) == 1 <==> n <= 250,
        varint_len(n) == 1 + 2 <==> 250 < n < 0x1_0000,
        varint_len(n) == 1 + 4 <==> 0x1_0000 <= n < 0x1_0000_0000,
        varint_len(n) == 1 + 8 <==> 0x1_0000_0000 <= n,
{
}

/// Signed numbers of small magnitude stay small on the wire, and no two share a form: what is not
/// negative goes to the even numbers, what is negative to the odd ones.
pub proof fn signed_numbers_have_forms_of_their_own(a: int, b: int)
    ensures
        a >= 0 ==> zigzag(a) == a + a,
        a < 0 ==> zigzag(a) + 1 == -a - a,
        zigzag(a) == zigzag(b) ==> a == b,
{
}

/// How many bytes values take: an octet one, an integer its variable-length form, bytes and text
/// their length in such a form and then themselves, and nothing nothing.
pub proof fn values_are_as_long_as_their_encoding(a: u8, b: u32, c: u64, d: i32, bytes: Seq<u8>, text: Seq<char>)
    ensures
        <() as Value>::encoded_len(()) == 0,
        <u8 as Value>::encoded_len(a) == 1,
        <u32 as Value>::encoded_len(b) == varint_len(b as nat),
        <u64 as Value>::encoded_len(c) == varint_len(c as nat),
        d >= 0 ==> <i32 as Value>::encoded_len(d) == varint_len((d + d) as nat),
        d < 0 ==> <i32 as Value>::encoded_len(d) == varint_len((-d - d - 1) as nat),
        <Vec<u8> as Value>::encoded_len(bytes) == varint_len(bytes.len()) + bytes.len(),
        <String as Value>::encoded_len(text) == varint_len(vstd::utf8::encode_utf8(text).len())
            + vstd::utf8::encode_utf8(text).len(),
{
}

/// A capped size is the size itself where it fits, and never more.
pub proof fn capping_only_cuts_what_does_not_fit(n: nat)
    ensures
        n <= usize::MAX ==> capped(n) == n,
        n > usize::MAX ==> capped(n) == usize::MAX,
{
}

} // verus!
