//! Chunk digests: the 32-byte content hash that names a chunk, its hex
//! rendering, and the set of digests a garbage-collection pass has marked.

use vstd::prelude::*;

verus! {

/// What the SHA-256 primitive returns for a given byte sequence.
///
/// The value is a function of the input alone; nothing more is assumed
/// of it here than that `sha256` below returns it.
pub uninterp spec fn sha256_of(data: Seq<u8>) -> Seq<u8>;

/// Relies on `openssl::sha::sha256`: a 32-byte digest computed from the
/// input bytes alone.
#[verifier::external_body]
pub(crate) fn sha256(data: &[u8]) -> (r: [u8; 32])
    ensures
        r@ == sha256_of(data@),
{
    openssl::sha::sha256(data)
}

/// True when the two digests hold the same bytes.
pub fn digest_eq(a: &[u8; 32], b: &[u8; 32]) -> (r: bool)
    ensures
        r == (a@ == b@),
{
    let mut i: usize = 0;
    while i < 32
        invariant
            i <= 32,
            forall|j: int| 0 <= j < i ==> a@[j] == b@[j],
        decreases 32 - i,
    {
        if a[i] != b[i] {
            return false;
        }
        i = i + 1;
    }
    proof {
        assert(a@ =~= b@);
    }
    true
}

/// The lower-case hex character for a value below 16.
pub open spec fn hex_digit(n: u8) -> char
    recommends
        n < 16,
{
    if n == 0 {
        '0'
    } else if n == 1 {
        '1'
    } else if n == 2 {
        '2'
    } else if n == 3 {
        '3'
    } else if n == 4 {
        '4'
    } else if n == 5 {
        '5'
    } else if n == 6 {
        '6'
    } else if n == 7 {
        '7'
    } else if n == 8 {
        '8'
    } else if n == 9 {
        '9'
    } else if n == 10 {
        'a'
    } else if n == 11 {
        'b'
    } else if n == 12 {
        'c'
    } else if n == 13 {
        'd'
    } else if n == 14 {
        'e'
    } else {
        'f'
    }
}

/// The lower-case hex rendering of a byte sequence, two characters per byte.
pub open spec fn hex_of(bytes: Seq<u8>) -> Seq<char>
    decreases bytes.len(),
{
    if bytes.len() == 0 {
        Seq::empty()
    } else {
        hex_of(bytes.drop_last()) + seq![
            hex_digit(bytes.last() / 16),
            hex_digit(bytes.last() % 16),
        ]
    }
}

/// The one-character string for a hex digit value.
fn hex_char_str(n: u8) -> (r: &'static str)
    requires
        n < 16,
    ensures
        r@ == seq![hex_digit(n)],
{
    let r: &'static str = match n {
        0 => "0",
        1 => "1",
        2 => "2",
        3 => "3",
        4 => "4",
        5 => "5",
        6 => "6",
        7 => "7",
        8 => "8",
        9 => "9",
        10 => "a",
        11 => "b",
        12 => "c",
        13 => "d",
        14 => "e",
        _ => "f",
    };
    proof {
        reveal_strlit("0");
        reveal_strlit("1");
        reveal_strlit("2");
        reveal_strlit("3");
        reveal_strlit("4");
        reveal_strlit("5");
        reveal_strlit("6");
        reveal_strlit("7");
        reveal_strlit("8");
        reveal_strlit("9");
        reveal_strlit("a");
        reveal_strlit("b");
        reveal_strlit("c");
        reveal_strlit("d");
        reveal_strlit("e");
        reveal_strlit("f");
        assert(r@ =~= seq![hex_digit(n)]);
    }
    r
}

/// The lower-case hex rendering of a digest, 64 characters.
pub fn digest_to_hex(digest: &[u8; 32]) -> (r: String)
    ensures
        r@ == hex_of(digest@),
{
    let mut s = String::new();
    let mut i: usize = 0;
    while i < 32
        invariant
            i <= 32,
            s@ == hex_of(digest@.take(i as int)),
        decreases 32 - i,
    {
        let b = digest[i];
        s.append(hex_char_str(b / 16));
        s.append(hex_char_str(b % 16));
        proof {
            assert(digest@.take(i + 1int).drop_last() =~= digest@.take(i as int));
            assert(digest@.take(i + 1int).last() == digest@[i as int]);
            assert(s@ =~= hex_of(digest@.take(i + 1int)));
        }
        i = i + 1;
    }
    proof {
        assert(digest@.take(32) =~= digest@);
    }
    s
}

/// True when `items` holds the digest bytes `d`.
pub open spec fn digests_contain(items: Seq<Seq<u8>>, d: Seq<u8>) -> bool {
    exists|i: int| 0 <= i < items.len() && items[i] == d
}

/// The recorded digests after walking `slots`: each slot digest not yet
/// recorded is appended once, in slot order.
pub open spec fn marked_after(items: Seq<Seq<u8>>, slots: Seq<Seq<u8>>) -> Seq<Seq<u8>>
    decreases slots.len(),
{
    if slots.len() == 0 {
        items
    } else {
        let prev = marked_after(items, slots.drop_last());
        if digests_contain(prev, slots.last()) {
            prev
        } else {
            prev.push(slots.last())
        }
    }
}

/// Marking never removes a recorded digest.
pub proof fn lemma_marked_after_len(items: Seq<Seq<u8>>, slots: Seq<Seq<u8>>)
    ensures
        marked_after(items, slots).len() >= items.len(),
    decreases slots.len(),
{
    if slots.len() > 0 {
        lemma_marked_after_len(items, slots.drop_last());
    }
}

/// The digests a garbage-collection mark phase has recorded, each one once.
pub struct DigestSet {
    items: Vec<[u8; 32]>,
}

impl DigestSet {
    /// The recorded digest byte sequences, in insertion order.
    pub closed spec fn items(&self) -> Seq<Seq<u8>> {
        Seq::new(self.items@.len(), |i: int| self.items@[i]@)
    }

    /// True when `d` was recorded.
    pub open spec fn has(&self, d: Seq<u8>) -> bool {
        digests_contain(self.items(), d)
    }

    /// No digest is recorded twice.
    pub open spec fn wf(&self) -> bool {
        forall|i: int, j: int|
            0 <= i < j < self.items().len() ==> self.items()[i] != self.items()[j]
    }

    /// An empty set.
    pub fn new() -> (r: DigestSet)
        ensures
            r.items() =~= Seq::<Seq<u8>>::empty(),
            r.wf(),
    {
        DigestSet { items: Vec::new() }
    }

    /// How many distinct digests are recorded.
    pub fn len(&self) -> (r: usize)
        ensures
            r == self.items().len(),
    {
        self.items.len()
    }

    /// True when `d` was recorded.
    pub fn contains(&self, d: &[u8; 32]) -> (r: bool)
        ensures
            r == self.has(d@),
    {
        let mut i: usize = 0;
        while i < self.items.len()
            invariant
                i <= self.items().len(),
                forall|j: int| 0 <= j < i ==> self.items()[j] != d@,
            decreases self.items().len() - i,
        {
            if digest_eq(&self.items[i], d) {
                proof {
                    assert(self.items()[i as int] == d@);
                }
                return true;
            }
            i = i + 1;
        }
        false
    }

    /// Record `d`; report whether it was new.
    pub fn insert(&mut self, d: &[u8; 32]) -> (newly: bool)
        requires
            old(self).wf(),
        ensures
            final(self).wf(),
            newly == !old(self).has(d@),
            final(self).items() == if old(self).has(d@) {
                old(self).items()
            } else {
                old(self).items().push(d@)
            },
    {
        if self.contains(d) {
            false
        } else {
            self.items.push(*d);
            proof {
                assert(self.items() =~= old(self).items().push(d@));
            }
            true
        }
    }
}

} // verus!
