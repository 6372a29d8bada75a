//! Verified helpers for text: string equality, substring search, decimal
//! formatting, and the character mapping used by signature tags.

use vstd::prelude::*;
use vstd::string::StringExecFns;
use vstd::string::StrSliceExecFns;

verus! {

/// The character that stands for decimal digit `d`.
pub open spec fn digit_char(d: nat) -> char {
    if d == 0 {
        '0'
    } else if d == 1 {
        '1'
    } else if d == 2 {
        '2'
    } else if d == 3 {
        '3'
    } else if d == 4 {
        '4'
    } else if d == 5 {
        '5'
    } else if d == 6 {
        '6'
    } else if d == 7 {
        '7'
    } else if d == 8 {
        '8'
    } else if d == 9 {
        '9'
    } else {
        '9'
    }
}

/// Decimal digits of `n`, most significant first, no leading zeros
/// (a single `'0'` for zero).
pub open spec fn spec_dec_digits(n: nat) -> Seq<char>
    decreases n,
{
    if n < 10 {
        seq![digit_char(n)]
    } else {
        spec_dec_digits(n / 10).push(digit_char(n % 10))
    }
}

fn append_digit(out: &mut String, d: u64)
    requires
        d < 10,
    ensures
        final(out)@ == old(out)@.push(digit_char(d as nat)),
{
    if d == 0 {
        proof { reveal_strlit("0"); }
        out.append("0");
    } else if d == 1 {
        proof { reveal_strlit("1"); }
        out.append("1");
    } else if d == 2 {
        proof { reveal_strlit("2"); }
        out.append("2");
    } else if d == 3 {
        proof { reveal_strlit("3"); }
        out.append("3");
    } else if d == 4 {
        proof { reveal_strlit("4"); }
        out.append("4");
    } else if d == 5 {
        proof { reveal_strlit("5"); }
        out.append("5");
    } else if d == 6 {
        proof { reveal_strlit("6"); }
        out.append("6");
    } else if d == 7 {
        proof { reveal_strlit("7"); }
        out.append("7");
    } else if d == 8 {
        proof { reveal_strlit("8"); }
        out.append("8");
    } else {
        proof { reveal_strlit("9"); }
        out.append("9");
    }
    proof {
        assert(out@ =~= old(out)@.push(digit_char(d as nat)));
    }
}

/// Appends the decimal digits of `n` to `out`.
pub fn append_u64(out: &mut String, n: u64)
    ensures
        final(out)@ == old(out)@ + spec_dec_digits(n as nat),
    decreases n,
{
    if n < 10 {
        append_digit(out, n);
        proof {
            assert(out@ =~= old(out)@ + spec_dec_digits(n as nat));
        }
    } else {
        append_u64(out, n / 10);
        append_digit(out, n % 10);
        proof {
            assert(out@ =~= old(out)@ + spec_dec_digits(n as nat));
        }
    }
}

/// The decimal rendering of `n`.
pub fn u64_to_string(n: u64) -> (r: String)
    ensures
        r@ == spec_dec_digits(n as nat),
{
    let mut s = String::new();
    append_u64(&mut s, n);
    proof {
        assert(s@ =~= spec_dec_digits(n as nat));
    }
    s
}

/// Whether two string slices hold the same characters.
pub fn str_eq(a: &str, b: &str) -> (r: bool)
    ensures
        r == (a@ == b@),
{
    let alen = a.unicode_len();
    let blen = b.unicode_len();
    if alen != blen {
        return false;
    }
    let mut i: usize = 0;
    while i < alen
        invariant
            i <= alen,
            alen == a@.len(),
            alen == b@.len(),
            forall|j: int| 0 <= j < i ==> a@[j] == b@[j],
        decreases alen - i,
    {
        if a.get_char(i) != b.get_char(i) {
            return false;
        }
        i = i + 1;
    }
    proof {
        assert(a@ =~= b@);
    }
    true
}

/// Whether `n` occurs as a contiguous run of characters in `h`.
pub open spec fn spec_contains(h: Seq<char>, n: Seq<char>) -> bool {
    exists|i: int|
        0 <= i && i + n.len() <= h.len() && #[trigger] h.subrange(i, i + n.len() as int) == n
}

fn matches_at(h: &str, n: &str, i: usize) -> (r: bool)
    requires
        i + n@.len() <= h@.len(),
    ensures
        r == (h@.subrange(i as int, i + n@.len() as int) == n@),
{
    let hlen = h.unicode_len();
    let nlen = n.unicode_len();
    let mut j: usize = 0;
    while j < nlen
        invariant
            j <= nlen,
            nlen == n@.len(),
            hlen == h@.len(),
            i + nlen <= h@.len(),
            forall|k: int| 0 <= k < j ==> h@[i + k] == n@[k],
        decreases nlen - j,
    {
        if h.get_char(i + j) != n.get_char(j) {
            proof {
                assert(h@.subrange(i as int, i + n@.len() as int)[j as int] == h@[i + j]);
            }
            return false;
        }
        j = j + 1;
    }
    proof {
        assert(h@.subrange(i as int, i + n@.len() as int) =~= n@);
    }
    true
}

/// Whether `h` contains `n` as a substring.
pub fn str_contains(h: &str, n: &str) -> (r: bool)
    ensures
        r == spec_contains(h@, n@),
{
    let hlen = h.unicode_len();
    let nlen = n.unicode_len();
    if nlen > hlen {
        return false;
    }
    if nlen == 0 {
        proof {
            assert(h@.subrange(0, 0 + n@.len() as int) =~= n@);
        }
        return true;
    }
    let last = hlen - nlen;
    let mut i: usize = 0;
    while i <= last
        invariant
            1 <= nlen <= hlen,
            hlen == h@.len(),
            nlen == n@.len(),
            last == hlen - nlen,
            i <= last + 1,
            forall|k: int|
                0 <= k < i ==> #[trigger] h@.subrange(k, k + n@.len() as int) != n@,
        decreases last + 1 - i,
    {
        if matches_at(h, n, i) {
            return true;
        }
        i = i + 1;
    }
    false
}

/// The character mapping for signature tags: ASCII lowercase letters are
/// upcased, an underscore becomes a dash, anything else is kept.
pub open spec fn xyn_char(c: char) -> char {
    if c == '_' {
        '-'
    } else if c == 'a' {
        'A'
    } else if c == 'b' {
        'B'
    } else if c == 'c' {
        'C'
    } else if c == 'd' {
        'D'
    } else if c == 'e' {
        'E'
    } else if c == 'f' {
        'F'
    } else if c == 'g' {
        'G'
    } else if c == 'h' {
        'H'
    } else if c == 'i' {
        'I'
    } else if c == 'j' {
        'J'
    } else if c == 'k' {
        'K'
    } else if c == 'l' {
        'L'
    } else if c == 'm' {
        'M'
    } else if c == 'n' {
        'N'
    } else if c == 'o' {
        'O'
    } else if c == 'p' {
        'P'
    } else if c == 'q' {
        'Q'
    } else if c == 'r' {
        'R'
    } else if c == 's' {
        'S'
    } else if c == 't' {
        'T'
    } else if c == 'u' {
        'U'
    } else if c == 'v' {
        'V'
    } else if c == 'w' {
        'W'
    } else if c == 'x' {
        'X'
    } else if c == 'y' {
        'Y'
    } else if c == 'z' {
        'Z'
    } else {
        c
    }
}

/// Appends `xyn_char` of each character of `s` to `out`.
pub fn append_xyn_mapped(out: &mut String, s: &str)
    ensures
        final(out)@ == old(out)@ + s@.map_values(|c: char| xyn_char(c)),
{
    let len = s.unicode_len();
    let mut i: usize = 0;
    while i < len
        invariant
            i <= len,
            len == s@.len(),
            out@ == old(out)@ + s@.subrange(0, i as int).map_values(|c: char| xyn_char(c)),
        decreases len - i,
    {
        let c = s.get_char(i);
        append_xyn_char(out, s, i);
        proof {
            assert(s@.subrange(0, i + 1).map_values(|c: char| xyn_char(c)) =~= s@.subrange(
                0,
                i as int,
            ).map_values(|c: char| xyn_char(c)).push(xyn_char(s@[i as int])));
            assert(out@ =~= old(out)@ + s@.subrange(0, i + 1).map_values(
                |c: char| xyn_char(c),
            ));
        }
        i = i + 1;
    }
    proof {
        assert(s@.subrange(0, len as int) =~= s@);
    }
}

fn append_xyn_char(out: &mut String, s: &str, i: usize)
    requires
        i < s@.len(),
    ensures
        final(out)@ == old(out)@.push(xyn_char(s@[i as int])),
{
    let len = s.unicode_len();
    let c = s.get_char(i);
    if c == '_' {
        proof { reveal_strlit("-"); }
        out.append("-");
    } else if c == 'a' {
        proof { reveal_strlit("A"); }
        out.append("A");
    } else if c == 'b' {
        proof { reveal_strlit("B"); }
        out.append("B");
    } else if c == 'c' {
        proof { reveal_strlit("C"); }
        out.append("C");
    } else if c == 'd' {
        proof { reveal_strlit("D"); }
        out.append("D");
    } else if c == 'e' {
        proof { reveal_strlit("E"); }
        out.append("E");
    } else if c == 'f' {
        proof { reveal_strlit("F"); }
        out.append("F");
    } else if c == 'g' {
        proof { reveal_strlit("G"); }
        out.append("G");
    } else if c == 'h' {
        proof { reveal_strlit("H"); }
        out.append("H");
    } else if c == 'i' {
        proof { reveal_strlit("I"); }
        out.append("I");
    } else if c == 'j' {
        proof { reveal_strlit("J"); }
        out.append("J");
    } else if c == 'k' {
        proof { reveal_strlit("K"); }
        out.append("K");
    } else if c == 'l' {
        proof { reveal_strlit("L"); }
        out.append("L");
    } else if c == 'm' {
        proof { reveal_strlit("M"); }
        out.append("M");
    } else if c == 'n' {
        proof { reveal_strlit("N"); }
        out.append("N");
    } else if c == 'o' {
        proof { reveal_strlit("O"); }
        out.append("O");
    } else if c == 'p' {
        proof { reveal_strlit("P"); }
        out.append("P");
    } else if c == 'q' {
        proof { reveal_strlit("Q"); }
        out.append("Q");
    } else if c == 'r' {
        proof { reveal_strlit("R"); }
        out.append("R");
    } else if c == 's' {
        proof { reveal_strlit("S"); }
        out.append("S");
    } else if c == 't' {
        proof { reveal_strlit("T"); }
        out.append("T");
    } else if c == 'u' {
        proof { reveal_strlit("U"); }
        out.append("U");
    } else if c == 'v' {
        proof { reveal_strlit("V"); }
        out.append("V");
    } else if c == 'w' {
        proof { reveal_strlit("W"); }
        out.append("W");
    } else if c == 'x' {
        proof { reveal_strlit("X"); }
        out.append("X");
    } else if c == 'y' {
        proof { reveal_strlit("Y"); }
        out.append("Y");
    } else if c == 'z' {
        proof { reveal_strlit("Z"); }
        out.append("Z");
    } else {
        let one = s.substring_char(i, i + 1);
        out.append(one);
        proof {
            assert(one@ =~= seq![s@[i as int]]);
        }
    }
    proof {
        assert(out@ =~= old(out)@.push(xyn_char(s@[i as int])));
    }
}

} // verus!
