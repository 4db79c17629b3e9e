//! Byte-level helpers for slicing URI text at ASCII delimiters.
//!
//! All the grammar of a BIP21 URI is written with ASCII delimiters (`:`, `?`, `&`, `=`), so the
//! parser works on the UTF-8 bytes of the input and cuts it only at positions whose byte is ASCII
//! (or at the end). Such positions are always character boundaries, which is what makes the
//! slicing of `str` safe.

use vstd::prelude::*;
use vstd::string::StringSliceAdditionalSpecFns;
use vstd::utf8::*;

verus! {

broadcast use vstd::utf8::group_utf8_lib;

/// The UTF-8 bytes of a string slice.
pub open spec fn bytes_of(s: &str) -> Seq<u8> {
    s.spec_bytes()
}

/// The UTF-8 bytes of an owned string.
pub open spec fn string_bytes(s: String) -> Seq<u8> {
    encode_utf8(s@)
}

/// `i` is a position at which a string may be cut: its end, or a position holding an ASCII byte.
pub open spec fn ascii_cut(b: Seq<u8>, i: int) -> bool {
    0 <= i <= b.len() && (i == b.len() || b[i] < 128)
}

/// Every byte before `k` is ASCII.
pub open spec fn ascii_prefix(b: Seq<u8>, k: int) -> bool {
    0 <= k <= b.len() && forall|j: int| 0 <= j < k ==> #[trigger] b[j] < 128
}

/// A position holding an ASCII byte, or the end, is a character boundary.
pub proof fn lemma_ascii_cut_is_boundary(b: Seq<u8>, i: int)
    requires
        valid_utf8(b),
        ascii_cut(b, i),
    ensures
        is_char_boundary(b, i),
{
    if i == b.len() {
        is_char_boundary_start_end_of_seq(b);
    } else {
        is_char_boundary_iff_is_leading_byte(b, i);
    }
}

/// The end of an all-ASCII prefix is a character boundary.
pub proof fn lemma_ascii_prefix_is_boundary(b: Seq<u8>, k: int)
    requires
        valid_utf8(b),
        ascii_prefix(b, k),
    ensures
        is_char_boundary(b, k),
    decreases k,
{
    if k > 0 {
        assert(b.len() > 0);
        assert(b[0] < 128);
        assert(length_of_first_scalar(b) == 1);
        let rest = pop_first_scalar(b);
        assert(rest =~= b.subrange(1, b.len() as int));
        assert forall|j: int| 0 <= j < k - 1 implies #[trigger] rest[j] < 128 by {
            assert(rest[j] == b[j + 1]);
        }
        lemma_ascii_prefix_is_boundary(rest, k - 1);
    }
}

/// Every string slice holds valid UTF-8.
pub proof fn lemma_str_valid(s: &str)
    ensures
        valid_utf8(bytes_of(s)),
{
    encode_utf8_valid_utf8(s@);
}

/// Splits `s` at byte `i`, a position of an ASCII byte or the end.
pub fn split_at_ascii<'a>(s: &'a str, i: usize) -> (r: (&'a str, &'a str))
    requires
        ascii_cut(bytes_of(s), i as int),
    ensures
        bytes_of(r.0) == bytes_of(s).subrange(0, i as int),
        bytes_of(r.1) == bytes_of(s).subrange(i as int, bytes_of(s).len() as int),
{
    proof {
        lemma_str_valid(s);
        lemma_ascii_cut_is_boundary(bytes_of(s), i as int);
    }
    s.split_at(i)
}

/// Drops the first `k` bytes of `s`, all of which are ASCII.
pub fn skip_ascii<'a>(s: &'a str, k: usize) -> (r: &'a str)
    requires
        ascii_prefix(bytes_of(s), k as int),
    ensures
        bytes_of(r) == bytes_of(s).subrange(k as int, bytes_of(s).len() as int),
{
    proof {
        lemma_str_valid(s);
        lemma_ascii_prefix_is_boundary(bytes_of(s), k as int);
    }
    let (_, tail) = s.split_at(k);
    tail
}

/// The position of the first occurrence of byte `c` in `b`, if there is one.
pub open spec fn first_index(b: Seq<u8>, c: u8) -> Option<int>
    decreases b.len(),
{
    if b.len() == 0 {
        None
    } else if b[0] == c {
        Some(0)
    } else {
        match first_index(b.subrange(1, b.len() as int), c) {
            Some(i) => Some(i + 1),
            None => None,
        }
    }
}

/// `first_index` finds the first occurrence, and nothing when there is none.
pub proof fn lemma_first_index(b: Seq<u8>, c: u8)
    ensures
        match first_index(b, c) {
            Some(i) => 0 <= i < b.len() && b[i] == c && forall|j: int| 0 <= j < i ==> b[j] != c,
            None => forall|j: int| 0 <= j < b.len() ==> b[j] != c,
        },
    decreases b.len(),
{
    if b.len() > 0 {
        let t = b.subrange(1, b.len() as int);
        lemma_first_index(t, c);
        if b[0] != c {
            match first_index(t, c) {
                Some(i) => {
                    assert forall|j: int| 0 <= j < i + 1 implies b[j] != c by {
                        if j > 0 {
                            assert(b[j] == t[j - 1]);
                        }
                    }
                },
                None => {
                    assert forall|j: int| 0 <= j < b.len() implies b[j] != c by {
                        if j > 0 {
                            assert(b[j] == t[j - 1]);
                        }
                    }
                },
            }
        }
    }
}

/// A position that holds `c` and has no `c` before it is the first index of `c`.
pub proof fn lemma_first_index_unique(b: Seq<u8>, c: u8, i: int)
    requires
        0 <= i <= b.len(),
        i < b.len() ==> b[i] == c,
        forall|j: int| 0 <= j < i ==> b[j] != c,
    ensures
        first_index(b, c) == (if i < b.len() { Some(i) } else { None::<int> }),
{
    lemma_first_index(b, c);
    match first_index(b, c) {
        Some(k) => {
            if k < i {
            } else if i < k {
                assert(b[i] != c);
            }
        },
        None => {
            if i < b.len() {
                assert(b[i] != c);
            }
        },
    }
}

/// Finds the first byte `c` in `s`; `c` is ASCII.
pub fn find_byte(s: &str, c: u8) -> (r: Option<usize>)
    requires
        c < 128,
    ensures
        r == (match first_index(bytes_of(s), c) {
            Some(i) => Some(i as usize),
            None => None::<usize>,
        }),
        r matches Some(i) ==> i < bytes_of(s).len() && bytes_of(s)[i as int] == c,
{
    let b = s.as_bytes();
    let n = b.len();
    let mut i: usize = 0;
    while i < n
        invariant
            b@ == bytes_of(s),
            n == b@.len(),
            i <= n,
            forall|j: int| 0 <= j < i ==> b@[j] != c,
        decreases n - i,
    {
        if b[i] == c {
            proof {
                lemma_first_index_unique(b@, c, i as int);
            }
            return Some(i);
        }
        i = i + 1;
    }
    proof {
        lemma_first_index_unique(b@, c, n as int);
    }
    None
}

/// Splits `s` at the first byte `c` (ASCII): the text before it, and the text after it when
/// there is such a byte.
pub fn split_once_byte<'a>(s: &'a str, c: u8) -> (r: (&'a str, Option<&'a str>))
    requires
        c < 128,
    ensures
        match first_index(bytes_of(s), c) {
            Some(i) => bytes_of(r.0) == bytes_of(s).subrange(0, i) && r.1 is Some && bytes_of(
                r.1->0,
            ) == bytes_of(s).subrange(i + 1, bytes_of(s).len() as int),
            None => bytes_of(r.0) == bytes_of(s) && r.1 is None,
        },
{
    proof {
        lemma_first_index(bytes_of(s), c);
    }
    match find_byte(s, c) {
        Some(i) => {
            let (head, tail) = split_at_ascii(s, i);
            proof {
                assert(bytes_of(tail)[0] == c);
                assert(ascii_prefix(bytes_of(tail), 1));
            }
            let rest = skip_ascii(tail, 1);
            (head, Some(rest))
        },
        None => {
            proof {
                assert(bytes_of(s).subrange(0, bytes_of(s).len() as int) =~= bytes_of(s));
            }
            (s, None)
        },
    }
}

} // verus!
