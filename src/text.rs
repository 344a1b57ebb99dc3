//! Small text helpers with exact specifications: decimal rendering of
//! integers, joining of words, and joining of path segments.

use vstd::prelude::*;

verus! {

/// The decimal digit `d` (`d < 10`) as a one-character string.
pub open spec fn digit_text(d: nat) -> Seq<char> {
    if d == 0 {
        "0"@
    } else if d == 1 {
        "1"@
    } else if d == 2 {
        "2"@
    } else if d == 3 {
        "3"@
    } else if d == 4 {
        "4"@
    } else if d == 5 {
        "5"@
    } else if d == 6 {
        "6"@
    } else if d == 7 {
        "7"@
    } else if d == 8 {
        "8"@
    } else {
        "9"@
    }
}

/// The digits of `n` in base ten, most significant first, without leading zeros.
pub open spec fn digits(n: nat) -> Seq<char>
    decreases n,
{
    if n < 10 {
        digit_text(n)
    } else {
        digits(n / 10) + digit_text(n % 10)
    }
}

/// The decimal rendering of `n`, with a leading `-` when negative.
pub open spec fn decimal(n: int) -> Seq<char> {
    if n < 0 {
        "-"@ + digits((-n) as nat)
    } else {
        digits(n as nat)
    }
}

/// The words of `ws` separated by single spaces.
pub open spec fn join_words(ws: Seq<Seq<char>>) -> Seq<char>
    decreases ws.len(),
{
    if ws.len() == 0 {
        Seq::empty()
    } else if ws.len() == 1 {
        ws[0]
    } else {
        join_words(ws.drop_last()) + " "@ + ws.last()
    }
}

/// `dir` joined onto `base` with `/` as separator: an absolute `dir` replaces
/// `base`; no separator is added after an empty `base` or one that already
/// ends with `/`.
pub open spec fn join_path(base: Seq<char>, dir: Seq<char>) -> Seq<char> {
    if dir.len() > 0 && dir[0] == '/' {
        dir
    } else if base.len() == 0 || base.last() == '/' {
        base + dir
    } else {
        base + "/"@ + dir
    }
}

fn digit_str(d: u32) -> (r: &'static str)
    requires
        d < 10,
    ensures
        r@ == digit_text(d as nat),
{
    if d == 0 {
        "0"
    } else if d == 1 {
        "1"
    } else if d == 2 {
        "2"
    } else if d == 3 {
        "3"
    } else if d == 4 {
        "4"
    } else if d == 5 {
        "5"
    } else if d == 6 {
        "6"
    } else if d == 7 {
        "7"
    } else if d == 8 {
        "8"
    } else {
        "9"
    }
}

fn push_digits(out: &mut String, n: u32)
    ensures
        final(out)@ == old(out)@ + digits(n as nat),
    decreases n,
{
    if n >= 10 {
        push_digits(out, n / 10);
    }
    out.append(digit_str(n % 10));
    assert(final(out)@ =~= old(out)@ + digits(n as nat));
}

/// Renders `n` in decimal, as `i32::to_string` does.
pub fn decimal_string(n: i32) -> (r: String)
    ensures
        r@ == decimal(n as int),
{
    let mut out = String::new();
    if n < 0 {
        out.append("-");
        let magnitude: u32 = (-(n as i64)) as u32;
        push_digits(&mut out, magnitude);
    } else {
        push_digits(&mut out, n as u32);
    }
    out
}

/// Joins `dir` onto `base` as described by [`join_path`].
pub fn join_path_string(base: &str, dir: &str) -> (r: String)
    ensures
        r@ == join_path(base@, dir@),
{
    let base_len = base.unicode_len();
    let dir_len = dir.unicode_len();
    if dir_len > 0 && dir.get_char(0) == '/' {
        String::from_str(dir)
    } else if base_len == 0 || base.get_char(base_len - 1) == '/' {
        let mut out = String::from_str(base);
        out.append(dir);
        out
    } else {
        let mut out = String::from_str(base);
        out.append("/");
        out.append(dir);
        out
    }
}

/// Joins `words` with single spaces between them.
pub fn join_words_string(words: &[&str]) -> (r: String)
    ensures
        r@ == join_words(words@.map_values(|w: &str| w@)),
{
    let mut out = String::new();
    let mut i: usize = 0;
    while i < words.len()
        invariant
            i <= words@.len(),
            out@ == join_words(words@.map_values(|w: &str| w@).take(i as int)),
        decreases words@.len() - i,
    {
        let ghost ws = words@.map_values(|w: &str| w@);
        if i > 0 {
            out.append(" ");
        }
        out.append(words[i]);
        proof {
            assert(ws.take(i + 1).drop_last() =~= ws.take(i as int));
            if i == 0 {
                assert(ws.take(1) =~= seq![ws[0]]);
                assert(out@ =~= ws[0]);
            }
        }
        i = i + 1;
    }
    proof {
        assert(words@.map_values(|w: &str| w@).take(i as int) =~= words@.map_values(|w: &str| w@));
    }
    out
}

} // verus!
