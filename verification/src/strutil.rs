//! String utilities specified over `Seq<char>` views: equality and
//! code-point lexicographic order, as the ranker and the filter need them.

use vstd::prelude::*;
use vstd::string::StrSliceExecFns;
use vstd::string::StringExecFns;

verus! {

/// Lexicographic "less than or equal" on character sequences, comparing
/// code points; the order std's `str` comparison realizes on UTF-8 text.
pub open spec fn lex_leq(x: Seq<char>, y: Seq<char>) -> bool
    decreases x.len(),
{
    if x.len() == 0 {
        true
    } else if y.len() == 0 {
        false
    } else if (x[0] as u32) < (y[0] as u32) {
        true
    } else if (x[0] as u32) > (y[0] as u32) {
        false
    } else {
        lex_leq(x.drop_first(), y.drop_first())
    }
}

/// The lexicographic order relates every pair of sequences one way or the other.
pub proof fn lemma_lex_total(x: Seq<char>, y: Seq<char>)
    ensures
        lex_leq(x, y) || lex_leq(y, x),
    decreases x.len(),
{
    if x.len() > 0 && y.len() > 0 && (x[0] as u32) == (y[0] as u32) {
        lemma_lex_total(x.drop_first(), y.drop_first());
    }
}

/// The lexicographic order is transitive.
pub proof fn lemma_lex_trans(x: Seq<char>, y: Seq<char>, z: Seq<char>)
    requires
        lex_leq(x, y),
        lex_leq(y, z),
    ensures
        lex_leq(x, z),
    decreases x.len(),
{
    if x.len() > 0 {
        if (x[0] as u32) == (z[0] as u32) && (x[0] as u32) == (y[0] as u32) {
            lemma_lex_trans(x.drop_first(), y.drop_first(), z.drop_first());
        }
    }
}

/// Character-wise string equality, deciding `a@ == b@`.
pub fn str_eq(a: &str, b: &str) -> (r: bool)
    ensures
        r == (a@ == b@),
{
    let la = a.unicode_len();
    let lb = b.unicode_len();
    if la != lb {
        return false;
    }
    let mut i: usize = 0;
    while i < la
        invariant
            i <= la,
            la == a@.len(),
            la == b@.len(),
            forall|k: int| 0 <= k < i ==> a@[k] == b@[k],
        decreases la - i,
    {
        if a.get_char(i) != b.get_char(i) {
            return false;
        }
        i += 1;
    }
    proof {
        assert(a@ =~= b@);
    }
    true
}

/// Character-wise lexicographic comparison, deciding `lex_leq(a@, b@)`.
pub fn str_le(a: &str, b: &str) -> (r: bool)
    ensures
        r == lex_leq(a@, b@),
{
    let la = a.unicode_len();
    let lb = b.unicode_len();
    let mut i: usize = 0;
    proof {
        assert(a@.skip(0) =~= a@);
        assert(b@.skip(0) =~= b@);
    }
    while i < la && i < lb
        invariant
            i <= la,
            i <= lb,
            la == a@.len(),
            lb == b@.len(),
            lex_leq(a@, b@) == lex_leq(a@.skip(i as int), b@.skip(i as int)),
        decreases la - i,
    {
        let ca = a.get_char(i);
        let cb = b.get_char(i);
        if (ca as u32) < (cb as u32) {
            return true;
        }
        if (ca as u32) > (cb as u32) {
            return false;
        }
        proof {
            assert(a@.skip(i as int).drop_first() =~= a@.skip(i + 1));
            assert(b@.skip(i as int).drop_first() =~= b@.skip(i + 1));
        }
        i += 1;
    }
    i >= la
}

/// `n` space characters.
pub open spec fn spaces(n: nat) -> Seq<char>
    decreases n,
{
    if n == 0 {
        Seq::empty()
    } else {
        spaces((n - 1) as nat).push(' ')
    }
}

/// `s` padded on the right with spaces to width `w`; text already that wide
/// stays as it is.
pub open spec fn spec_pad(s: Seq<char>, w: nat) -> Seq<char> {
    s + spaces(if s.len() >= w {
        0nat
    } else {
        (w - s.len()) as nat
    })
}

/// Pads `s` on the right with spaces to width `w` characters.
pub fn pad_right(s: &str, w: usize) -> (r: String)
    ensures
        r@ == spec_pad(s@, w as nat),
{
    let mut out = s.to_owned();
    let mut k = s.unicode_len();
    proof {
        reveal_strlit(" ");
        assert(out@ =~= s@ + spaces(0));
    }
    if k >= w {
        return out;
    }
    while k < w
        invariant
            s@.len() <= k <= w,
            out@ == s@ + spaces((k - s@.len()) as nat),
        decreases w - k,
    {
        out.append(" ");
        proof {
            reveal_strlit(" ");
            assert(out@ =~= s@ + spaces((k + 1 - s@.len()) as nat));
        }
        k += 1;
    }
    out
}

/// The character of one decimal digit.
pub open spec fn digit_char(d: nat) -> char {
    if d == 0 {
        '0'
    } else if d == 1 {
        '1'
    } else if d == 2 {
        '2'
    } else if d == 3 {
        '3'
    } else if d == 4 {
        '4'
    } else if d == 5 {
        '5'
    } else if d == 6 {
        '6'
    } else if d == 7 {
        '7'
    } else if d == 8 {
        '8'
    } else {
        '9'
    }
}

/// The decimal digits of `n`, most significant first, no leading zero but
/// for `n == 0` itself.
pub open spec fn dec_digits(n: nat) -> Seq<char>
    decreases n,
{
    if n < 10 {
        seq![digit_char(n)]
    } else {
        dec_digits(n / 10).push(digit_char(n % 10))
    }
}

fn digit_str(d: u64) -> (r: &'static str)
    requires
        d < 10,
    ensures
        r@ == seq![digit_char(d as nat)],
{
    proof {
        reveal_strlit("0");
        reveal_strlit("1");
        reveal_strlit("2");
        reveal_strlit("3");
        reveal_strlit("4");
        reveal_strlit("5");
        reveal_strlit("6");
        reveal_strlit("7");
        reveal_strlit("8");
        reveal_strlit("9");
    }
    let r = if d == 0 {
        "0"
    } else if d == 1 {
        "1"
    } else if d == 2 {
        "2"
    } else if d == 3 {
        "3"
    } else if d == 4 {
        "4"
    } else if d == 5 {
        "5"
    } else if d == 6 {
        "6"
    } else if d == 7 {
        "7"
    } else if d == 8 {
        "8"
    } else {
        "9"
    };
    proof {
        assert(r@ =~= seq![digit_char(d as nat)]);
    }
    r
}

/// Renders `n` in decimal.
pub fn u64_to_string(n: u64) -> (r: String)
    ensures
        r@ == dec_digits(n as nat),
    decreases n,
{
    if n < 10 {
        digit_str(n).to_owned()
    } else {
        let mut s = u64_to_string(n / 10);
        s.append(digit_str(n % 10));
        proof {
            assert(s@ =~= dec_digits((n / 10) as nat).push(digit_char((n % 10) as nat)));
        }
        s
    }
}

/// The floor of the base-10 logarithm: one less than the count of decimal
/// digits.
pub open spec fn log10(n: nat) -> nat
    decreases n,
{
    if n < 10 {
        0
    } else {
        1 + log10(n / 10)
    }
}

/// Computes [`log10`].
pub fn ilog10(n: u64) -> (r: u64)
    ensures
        r == log10(n as nat),
    decreases n,
{
    if n < 10 {
        0
    } else {
        let r = ilog10(n / 10);
        proof {
            assert(log10(n as nat) == 1 + log10((n / 10) as nat));
            assert(log10((n / 10) as nat) <= (n / 10) as nat) by {
                lemma_log10_bound((n / 10) as nat);
            }
        }
        1 + r
    }
}

/// The logarithm never exceeds its argument.
proof fn lemma_log10_bound(n: nat)
    ensures
        log10(n) <= n,
    decreases n,
{
    if n >= 10 {
        lemma_log10_bound(n / 10);
    }
}

} // verus!
