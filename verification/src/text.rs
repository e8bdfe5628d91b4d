//! Small operations on text that the rules of the todo service are made of:
//! equality, prefixes, search without regard to ASCII case, and the pieces of
//! a path.

use vstd::prelude::*;
use vstd::std_specs::iter::IteratorSpec;
use vstd::string::{StrSliceExecFns, StringSliceAdditionalSpecFns};
use vstd::utf8::encode_utf8;

verus! {

/// Two texts with the same UTF-8 bytes are the same text.
pub proof fn lemma_same_bytes_same_text(a: Seq<char>, b: Seq<char>)
    requires
        encode_utf8(a) == encode_utf8(b),
    ensures
        a == b,
{
    vstd::utf8::encode_utf8_decode_utf8(a);
    vstd::utf8::encode_utf8_decode_utf8(b);
}

/// Whether two strings hold the same text.
pub fn same_text(a: &str, b: &str) -> (same: bool)
    ensures
        same == (a@ == b@),
{
    let x = a.as_bytes();
    let y = b.as_bytes();
    if x.len() != y.len() {
        return false;
    }
    let mut i: usize = 0;
    while i < x.len()
        invariant
            x@ == encode_utf8(a@),
            y@ == encode_utf8(b@),
            x@.len() == y@.len(),
            i <= x@.len(),
            forall|j: int| 0 <= j < i ==> x@[j] == y@[j],
        decreases x.len() - i,
    {
        if x[i] != y[i] {
            return false;
        }
        i += 1;
    }
    proof {
        assert(x@ =~= y@);
        lemma_same_bytes_same_text(a@, b@);
    }
    true
}

/// Whether `text` begins with `prefix`, byte by byte.
pub open spec fn begins_with(text: Seq<u8>, prefix: Seq<u8>) -> bool {
    prefix.len() <= text.len() && text.subrange(0, prefix.len() as int) == prefix
}

/// Whether `text` begins with `prefix`, byte by byte.
pub fn starts_with(text: &str, prefix: &str) -> (b: bool)
    ensures
        b == begins_with(encode_utf8(text@), encode_utf8(prefix@)),
{
    let x = text.as_bytes();
    let p = prefix.as_bytes();
    if p.len() > x.len() {
        return false;
    }
    let mut i: usize = 0;
    while i < p.len()
        invariant
            x@ == encode_utf8(text@),
            p@ == encode_utf8(prefix@),
            i <= p.len() <= x.len(),
            forall|j: int| 0 <= j < i ==> x@[j] == p@[j],
        decreases p.len() - i,
    {
        if x[i] != p[i] {
            assert(x@.subrange(0, p@.len() as int)[i as int] != p@[i as int]);
            return false;
        }
        i += 1;
    }
    assert(x@.subrange(0, p@.len() as int) =~= p@);
    true
}

/// A byte with an ASCII capital letter turned into its small letter.
pub open spec fn ascii_lower(b: u8) -> u8 {
    if 65 <= b <= 90 {
        (b + 32) as u8
    } else {
        b
    }
}

/// Whether `needle` stands in `text` at offset `at`, ASCII letters compared
/// without regard to case.
pub open spec fn found_at(text: Seq<u8>, needle: Seq<u8>, at: int) -> bool {
    &&& 0 <= at
    &&& at + needle.len() <= text.len()
    &&& forall|j: int|
        0 <= j < needle.len() ==> ascii_lower(#[trigger] text[at + j]) == ascii_lower(needle[j])
}

/// Whether `needle` stands somewhere in `text`, ASCII letters compared without
/// regard to case. The empty needle stands in every text.
pub open spec fn found_in(text: Seq<u8>, needle: Seq<u8>) -> bool {
    exists|at: int| found_at(text, needle, at)
}

/// A byte with an ASCII capital letter turned into its small letter.
fn to_lower(b: u8) -> (l: u8)
    ensures
        l == ascii_lower(b),
{
    if 65 <= b && b <= 90 {
        b + 32
    } else {
        b
    }
}

/// Whether `needle` stands in `text` at offset `at`.
fn stands_at(text: &[u8], needle: &[u8], at: usize) -> (b: bool)
    requires
        at + needle@.len() <= text@.len(),
    ensures
        b == found_at(text@, needle@, at as int),
{
    let len = text.len();
    let mut j: usize = 0;
    while j < needle.len()
        invariant
            len == text@.len(),
            at + needle@.len() <= len,
            j <= needle@.len(),
            forall|k: int|
                0 <= k < j ==> ascii_lower(#[trigger] text@[at + k]) == ascii_lower(needle@[k]),
        decreases needle.len() - j,
    {
        if to_lower(text[at + j]) != to_lower(needle[j]) {
            return false;
        }
        j += 1;
    }
    true
}

/// Whether `needle` stands somewhere in `text`, ASCII letters compared without
/// regard to case.
pub fn contains_ignoring_ascii_case(text: &str, needle: &str) -> (b: bool)
    ensures
        b == found_in(encode_utf8(text@), encode_utf8(needle@)),
{
    let x = text.as_bytes();
    let n = needle.as_bytes();
    if n.len() > x.len() {
        return false;
    }
    let last = x.len() - n.len();
    let mut at: usize = 0;
    loop
        invariant
            x@ == encode_utf8(text@),
            n@ == encode_utf8(needle@),
            last == x@.len() - n@.len(),
            at <= last,
            forall|k: int| 0 <= k < at ==> !found_at(x@, n@, k),
        decreases last - at,
    {
        if stands_at(x, n, at) {
            return true;
        }
        if at == last {
            return false;
        }
        at += 1;
    }
}

/// The offset of the first `/` of a path, or the length of the path if it has
/// none.
pub open spec fn first_slash(path: Seq<char>) -> nat
    decreases path.len(),
{
    if path.len() == 0 || path[0] == '/' {
        0
    } else {
        1 + first_slash(path.drop_first())
    }
}

/// The `n`-th piece of a path that is cut at every `/`, counted from 0. A
/// path without any `/` is one piece, and the path `/a` is an empty piece
/// followed by `a`.
pub open spec fn piece(path: Seq<char>, n: nat) -> Option<Seq<char>>
    decreases n,
{
    let cut = first_slash(path) as int;
    if n == 0 {
        Some(path.subrange(0, cut))
    } else if cut >= path.len() {
        None
    } else {
        piece(path.subrange(cut + 1, path.len() as int), (n - 1) as nat)
    }
}

/// The offset of the first `/` is where a `/` stands with none before it, or
/// the end of a path that holds none.
pub proof fn lemma_first_slash(path: Seq<char>, cut: int)
    requires
        0 <= cut <= path.len(),
        forall|i: int| 0 <= i < cut ==> path[i] != '/',
        cut < path.len() ==> path[cut] == '/',
    ensures
        first_slash(path) == cut,
    decreases path.len(),
{
    if cut > 0 {
        let rest = path.drop_first();
        assert forall|i: int| 0 <= i < cut - 1 implies rest[i] != '/' by {
            assert(rest[i] == path[i + 1]);
        }
        lemma_first_slash(rest, cut - 1);
    }
}

/// The `n`-th piece of a path that is cut at every `/`, counted from 0.
pub fn nth_piece(path: &str, n: usize) -> (found: Option<&str>)
    ensures
        match found {
            Some(p) => piece(path@, n as nat) == Some(p@),
            None => piece(path@, n as nat) is None,
        },
{
    let len = path.unicode_len();
    let mut chars = path.chars();
    // the piece that is being read begins at `start`; `left` more cuts lead to the piece asked for
    let mut start: usize = 0;
    let mut left: usize = n;
    let mut at: usize = 0;
    loop
        invariant
            len == path@.len(),
            at <= path@.len(),
            start <= at,
            left <= n,
            chars.remaining() == path@.subrange(at as int, path@.len() as int),
            forall|i: int| start <= i < at ==> path@[i] != '/',
            piece(path@, n as nat) == piece(
                path@.subrange(start as int, path@.len() as int),
                left as nat,
            ),
        decreases path@.len() - at,
    {
        let ghost before = chars;
        let next = chars.next();
        proof {
            vstd::string::next_postcondition(&before, &chars, next);
        }
        let ghost rest = path@.subrange(start as int, path@.len() as int);
        match next {
            None => {
                proof {
                    assert forall|i: int| 0 <= i < at - start implies rest[i] != '/' by {
                        assert(rest[i] == path@[start + i]);
                    }
                    lemma_first_slash(rest, at - start);
                    assert(rest.subrange(0, at - start) =~= path@.subrange(
                        start as int,
                        at as int,
                    ));
                }
                if left == 0 {
                    return Some(path.substring_char(start, at));
                } else {
                    return None;
                }
            },
            Some(c) => {
                assert(c == path@[at as int]) by {
                    assert(before.remaining()[0] == path@[at as int]);
                }
                assert(chars.remaining() =~= path@.subrange(at + 1, path@.len() as int));
                if c == '/' {
                    proof {
                        assert forall|i: int| 0 <= i < at - start implies rest[i] != '/' by {
                            assert(rest[i] == path@[start + i]);
                        }
                        assert(rest[at - start] == '/');
                        lemma_first_slash(rest, at - start);
                        assert(rest.subrange(0, at - start) =~= path@.subrange(
                            start as int,
                            at as int,
                        ));
                        assert(rest.subrange(at - start + 1, rest.len() as int) =~= path@.subrange(
                            at + 1,
                            path@.len() as int,
                        ));
                    }
                    if left == 0 {
                        return Some(path.substring_char(start, at));
                    }
                    left -= 1;
                    start = at + 1;
                }
                at += 1;
            },
        }
    }
}

} // verus!
