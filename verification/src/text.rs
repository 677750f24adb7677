//! Character-level text helpers for alias, key and wallet-file handling.
//!
//! Everything here is defined over `Seq<char>` views, so the rest of the
//! library can state its contracts in terms of exact character sequences.

use vstd::prelude::*;

verus! {

/// The whitespace characters stripped from stored key and address strings.
pub open spec fn is_wspace(c: char) -> bool {
    c == ' ' || c == '\t' || c == '\n' || c == '\r'
}

/// `s` with leading and trailing whitespace removed.
pub open spec fn trim_chars(s: Seq<char>) -> Seq<char>
    decreases s.len(),
{
    if s.len() == 0 {
        s
    } else if is_wspace(s[0]) {
        trim_chars(s.subrange(1, s.len() as int))
    } else if is_wspace(s[s.len() - 1]) {
        trim_chars(s.subrange(0, s.len() - 1))
    } else {
        s
    }
}

fn is_wspace_exec(c: char) -> (r: bool)
    ensures
        r == is_wspace(c),
{
    c == ' ' || c == '\t' || c == '\n' || c == '\r'
}

/// A copy of `address` with surrounding whitespace removed, as the wallet
/// file scraper stores key strings.
#[verifier::rlimit(30)]
pub fn clean_address(address: &str) -> (r: String)
    ensures
        r@ == trim_chars(address@),
{
    let n = address.unicode_len();
    let mut lo: usize = 0;
    let mut hi: usize = n;
    proof {
        assert(address@.subrange(0, n as int) =~= address@);
    }
    while lo < hi && is_wspace_exec(address.get_char(lo))
        invariant
            lo <= hi <= n,
            n == address@.len(),
            trim_chars(address@) == trim_chars(address@.subrange(lo as int, hi as int)),
            hi == n,
        decreases hi - lo,
    {
        proof {
            let cur = address@.subrange(lo as int, hi as int);
            assert(cur.subrange(1, cur.len() as int) =~= address@.subrange(
                lo + 1,
                hi as int,
            ));
        }
        lo = lo + 1;
    }
    while lo < hi && is_wspace_exec(address.get_char(hi - 1))
        invariant
            lo <= hi <= n,
            n == address@.len(),
            trim_chars(address@) == trim_chars(address@.subrange(lo as int, hi as int)),
            lo < hi ==> !is_wspace(address@[lo as int]),
        decreases hi,
    {
        proof {
            let cur = address@.subrange(lo as int, hi as int);
            assert(cur.subrange(0, cur.len() - 1) =~= address@.subrange(
                lo as int,
                hi - 1,
            ));
        }
        hi = hi - 1;
    }
    let out = address.substring_char(lo, hi);
    proof {
        let cur = address@.subrange(lo as int, hi as int);
        assert(trim_chars(cur) == cur);
    }
    out.to_owned()
}

/// Character-for-character equality of two string slices.
pub fn str_eq(a: &str, b: &str) -> (r: bool)
    ensures
        r == (a@ == b@),
{
    let la = a.unicode_len();
    let lb = b.unicode_len();
    if la != lb {
        return false;
    }
    let mut i: usize = 0;
    while i < la
        invariant
            i <= la,
            la == a@.len(),
            la == b@.len(),
            forall|j: int| 0 <= j < i ==> a@[j] == b@[j],
        decreases la - i,
    {
        if a.get_char(i) != b.get_char(i) {
            return false;
        }
        i = i + 1;
    }
    proof {
        assert(a@ =~= b@);
    }
    true
}

/// Pushing one string onto a vector pushes its view onto the deep view.
pub proof fn lemma_strings_snoc(a: Vec<String>, b: Vec<String>)
    requires
        a@.len() + 1 == b@.len(),
        forall|j: int| 0 <= j < a@.len() ==> b@[j] == a@[j],
    ensures
        b.deep_view() =~= a.deep_view().push(b@[a@.len() as int]@),
{
    assert forall|j: int| 0 <= j < b.deep_view().len() implies b.deep_view()[j]
        == a.deep_view().push(b@[a@.len() as int]@)[j] by {
        if j < a@.len() {
            assert(b@[j] == a@[j]);
        }
    }
}

/// An owned copy of a list of strings, character for character.
pub fn copy_strings(v: &Vec<String>) -> (r: Vec<String>)
    ensures
        r.deep_view() =~= v.deep_view(),
{
    let mut r: Vec<String> = Vec::new();
    let mut i: usize = 0;
    while i < v.len()
        invariant
            i <= v.len(),
            r@.len() == i,
            forall|j: int| 0 <= j < i ==> r@[j]@ == v@[j]@,
        decreases v.len() - i,
    {
        r.push(v[i].clone());
        i = i + 1;
    }
    proof {
        assert forall|j: int| 0 <= j < v.deep_view().len() implies r.deep_view()[j]
            == v.deep_view()[j] by {
            assert(r@[j]@ == v@[j]@);
        }
    }
    proof {
        assert(v.deep_view().take(v.len() as int) =~= v.deep_view());
    }
    r
}

/// Strict lexicographic order on character sequences by code point, the
/// order an ordered map of section headers sorts by.
pub open spec fn lex_lt(a: Seq<char>, b: Seq<char>) -> bool
    decreases a.len(),
{
    if b.len() == 0 {
        false
    } else if a.len() == 0 {
        true
    } else if a[0] != b[0] {
        (a[0] as u32) < (b[0] as u32)
    } else {
        lex_lt(a.subrange(1, a.len() as int), b.subrange(1, b.len() as int))
    }
}

/// Whether `a` comes strictly before `b` in lexicographic order.
pub fn str_lt(a: &str, b: &str) -> (r: bool)
    ensures
        r == lex_lt(a@, b@),
{
    let la = a.unicode_len();
    let lb = b.unicode_len();
    let mut i: usize = 0;
    proof {
        assert(a@.subrange(0, la as int) =~= a@);
        assert(b@.subrange(0, lb as int) =~= b@);
    }
    loop
        invariant
            i <= la,
            i <= lb,
            la == a@.len(),
            lb == b@.len(),
            forall|j: int| 0 <= j < i ==> a@[j] == b@[j],
            lex_lt(a@, b@) == lex_lt(
                a@.subrange(i as int, la as int),
                b@.subrange(i as int, lb as int),
            ),
        decreases la - i,
    {
        proof {
            let ra = a@.subrange(i as int, la as int);
            let rb = b@.subrange(i as int, lb as int);
            if i < la && i < lb && a@[i as int] == b@[i as int] {
                assert(ra.subrange(1, ra.len() as int) =~= a@.subrange(i + 1, la as int));
                assert(rb.subrange(1, rb.len() as int) =~= b@.subrange(i + 1, lb as int));
            }
        }
        if i == lb {
            return false;
        }
        if i == la {
            return true;
        }
        let ca = a.get_char(i);
        let cb = b.get_char(i);
        if ca != cb {
            return (ca as u32) < (cb as u32);
        }
        i = i + 1;
    }
}


/// The tag a stored transparent public key carries in the wallet file.
pub open spec fn key_marker_chars() -> Seq<char> {
    seq!['E', 'D', '2', '5', '5', '1', '9', '_', 'P', 'K', '_', 'P', 'R', 'E', 'F', 'I', 'X']
}

/// `s` with every occurrence of the key tag removed, scanning left to
/// right without overlap.
pub open spec fn strip_marker(s: Seq<char>) -> Seq<char>
    decreases s.len(),
{
    if s.len() == 0 {
        s
    } else if s.len() >= 17 && s.take(17) == key_marker_chars() {
        strip_marker(s.skip(17))
    } else {
        seq![s[0]] + strip_marker(s.subrange(1, s.len() as int))
    }
}

fn marker_lit() -> (m: &'static str)
    ensures
        m@ == key_marker_chars(),
{
    let m = "ED25519_PK_PREFIX";
    proof {
        reveal_strlit("ED25519_PK_PREFIX");
        assert(m@ =~= key_marker_chars());
    }
    m
}

fn marker_at(s: &str, i: usize) -> (r: bool)
    requires
        i <= s@.len() <= usize::MAX,
    ensures
        r == (i + 17 <= s@.len() && s@.subrange(i as int, i as int + 17)
            == key_marker_chars()),
{
    let n = s.unicode_len();
    if n < 17 || i > n - 17 {
        return false;
    }
    let m = marker_lit();
    let mut j: usize = 0;
    while j < 17
        invariant
            j <= 17,
            i + 17 <= n == s@.len(),
            m@ == key_marker_chars(),
            forall|q: int| 0 <= q < j ==> s@[i + q] == key_marker_chars()[q],
        decreases 17 - j,
    {
        if s.get_char(i + j) != m.get_char(j) {
            return false;
        }
        j = j + 1;
    }
    proof {
        assert(s@.subrange(i as int, i as int + 17) =~= key_marker_chars());
    }
    true
}

/// A copy of `raw` with every occurrence of the key tag removed, as the
/// wallet file scraper hands stored public keys out.
pub fn strip_key_marker(raw: &str) -> (r: String)
    ensures
        r@ == strip_marker(raw@),
{
    let n = raw.unicode_len();
    let mut out = String::new();
    let mut i: usize = 0;
    proof {
        assert(raw@.subrange(0, n as int) =~= raw@);
        assert(out@ + strip_marker(raw@) =~= strip_marker(raw@));
    }
    while i < n
        invariant
            i <= n,
            n == raw@.len(),
            strip_marker(raw@) == out@ + strip_marker(raw@.subrange(i as int, n as int)),
        decreases n - i,
    {
        let ghost rest = raw@.subrange(i as int, n as int);
        if marker_at(raw, i) {
            proof {
                assert(rest.take(17) =~= raw@.subrange(i as int, i as int + 17));
                assert(rest.skip(17) =~= raw@.subrange(i as int + 17, n as int));
            }
            i = i + 17;
        } else {
            let piece = raw.substring_char(i, i + 1);
            out.append(piece);
            proof {
                if rest.len() >= 17 {
                    assert(rest.take(17) =~= raw@.subrange(i as int, i as int + 17));
                }
                assert(rest.subrange(1, rest.len() as int) =~= raw@.subrange(
                    i as int + 1,
                    n as int,
                ));
                assert(piece@ =~= seq![rest[0]]);
            }
            i = i + 1;
        }
    }
    proof {
        assert(raw@.subrange(n as int, n as int) =~= Seq::<char>::empty());
        assert(out@ + Seq::<char>::empty() =~= out@);
    }
    out
}

} // verus!
