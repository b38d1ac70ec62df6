use vstd::prelude::*;
use crate::strutil::chars_of;

verus! {

// The timestamp fields of a data row are validated against the grammar of
// floating-point literals before a record is built, and the no-interval
// sentinel is the pair of fields whose literals denote the value zero. The
// grammar recognized here is: an optional sign, then either one of the
// special words (`inf`, `infinity`, `nan`, in any letter case) or a run of
// digits holding at most one decimal point and at least one digit,
// optionally followed by an exponent marker (`e` or `E`), an optional sign
// and at least one digit.

pub open spec fn is_digit(c: char) -> bool {
    '0' <= c && c <= '9'
}

pub open spec fn all_digits(s: Seq<char>) -> bool {
    forall|i: int| 0 <= i < s.len() ==> is_digit(#[trigger] s[i])
}

/// A character, in either letter case.
pub open spec fn ci(c: char, lo: char, up: char) -> bool {
    c == lo || c == up
}

/// The body of the literal with a single leading sign removed.
pub open spec fn strip_sign(s: Seq<char>) -> Seq<char> {
    if s.len() > 0 && (s[0] == '+' || s[0] == '-') {
        s.drop_first()
    } else {
        s
    }
}

pub open spec fn is_inf(b: Seq<char>) -> bool {
    b.len() == 3 && ci(b[0], 'i', 'I') && ci(b[1], 'n', 'N') && ci(b[2], 'f', 'F')
}

pub open spec fn is_infinity(b: Seq<char>) -> bool {
    b.len() == 8 && ci(b[0], 'i', 'I') && ci(b[1], 'n', 'N') && ci(b[2], 'f', 'F') && ci(
        b[3],
        'i',
        'I',
    ) && ci(b[4], 'n', 'N') && ci(b[5], 'i', 'I') && ci(b[6], 't', 'T') && ci(b[7], 'y', 'Y')
}

pub open spec fn is_nan(b: Seq<char>) -> bool {
    b.len() == 3 && ci(b[0], 'n', 'N') && ci(b[1], 'a', 'A') && ci(b[2], 'n', 'N')
}

/// One of the non-numeric special words, in any letter case.
pub open spec fn is_special(b: Seq<char>) -> bool {
    is_inf(b) || is_infinity(b) || is_nan(b)
}

/// Digits with at most one decimal point, and at least one digit.
pub open spec fn is_mantissa(m: Seq<char>) -> bool {
    &&& forall|i: int| 0 <= i < m.len() ==> (is_digit(#[trigger] m[i]) || m[i] == '.')
    &&& exists|i: int| 0 <= i < m.len() && is_digit(#[trigger] m[i])
    &&& forall|i: int, j: int|
        0 <= i < m.len() && 0 <= j < m.len() && #[trigger] m[i] == '.' && #[trigger] m[j] == '.'
            ==> i == j
}

/// An exponent body: an optional sign, then at least one digit.
pub open spec fn is_exp_part(e: Seq<char>) -> bool {
    let d = if e.len() > 0 && (e[0] == '+' || e[0] == '-') {
        e.drop_first()
    } else {
        e
    };
    d.len() > 0 && all_digits(d)
}

/// Index of the first exponent marker in `s`, or `s.len()` where there is
/// none.
pub open spec fn first_exp(s: Seq<char>) -> nat
    decreases s.len(),
{
    if s.len() == 0 {
        0
    } else if s[0] == 'e' || s[0] == 'E' {
        0
    } else {
        1 + first_exp(s.drop_first())
    }
}

/// The mantissa part of a signless body: everything before the first
/// exponent marker.
pub open spec fn mantissa_of(b: Seq<char>) -> Seq<char> {
    if first_exp(b) >= b.len() {
        b
    } else {
        b.take(first_exp(b) as int)
    }
}

/// A signless numeric body: a mantissa, optionally followed by an exponent
/// marker and an exponent body.
pub open spec fn is_number(b: Seq<char>) -> bool {
    let i = first_exp(b) as int;
    if i >= b.len() {
        is_mantissa(b)
    } else {
        is_mantissa(b.take(i)) && is_exp_part(b.skip(i + 1))
    }
}

/// Whether a whole field is a valid floating-point literal.
pub open spec fn is_float_literal(s: Seq<char>) -> bool {
    let b = strip_sign(s);
    is_special(b) || is_number(b)
}

pub open spec fn zero_digits(m: Seq<char>) -> bool {
    forall|i: int| 0 <= i < m.len() && is_digit(#[trigger] m[i]) ==> m[i] == '0'
}

/// Whether a field is a numeric literal denoting the value zero: every
/// mantissa digit is `0`, whatever the sign or the exponent says.
pub open spec fn denotes_zero(s: Seq<char>) -> bool {
    let b = strip_sign(s);
    is_number(b) && zero_digits(mantissa_of(b))
}

/// A position with no exponent marker before it that sits on one (or at the
/// end) is exactly the first exponent marker.
pub proof fn lemma_first_exp_is(s: Seq<char>, k: int)
    requires
        0 <= k <= s.len(),
        forall|j: int| 0 <= j < k ==> s[j] != 'e' && s[j] != 'E',
        k < s.len() ==> (s[k] == 'e' || s[k] == 'E'),
    ensures
        first_exp(s) == k,
    decreases s.len(),
{
    if s.len() == 0 {
    } else if s[0] == 'e' || s[0] == 'E' {
        assert(k == 0);
    } else {
        assert(k != 0);
        assert forall|j: int| 0 <= j < k - 1 implies s.drop_first()[j] != 'e' && s.drop_first()[j]
            != 'E' by {
            assert(s.drop_first()[j] == s[j + 1]);
        }
        if k - 1 < s.drop_first().len() {
            assert(s.drop_first()[k - 1] == s[k]);
        }
        lemma_first_exp_is(s.drop_first(), k - 1);
    }
}

/// Scan a mantissa range: whether it is a valid mantissa, and whether every
/// digit in it is zero.
fn scan_mantissa(v: &Vec<char>, from: usize, to: usize) -> (r: (bool, bool))
    requires
        from <= to <= v.len(),
    ensures
        r.0 == is_mantissa(v@.subrange(from as int, to as int)),
        r.1 == zero_digits(v@.subrange(from as int, to as int)),
{
    let ghost m = v@.subrange(from as int, to as int);
    let mut has_digit = false;
    let mut all_zero = true;
    let mut bad = false;
    let mut dots: usize = 0;
    let ghost mut first_dot: int = -1;
    let mut j: usize = from;
    while j < to
        invariant
            from <= j <= to <= v.len(),
            m == v@.subrange(from as int, to as int),
            bad == !(forall|i: int|
                0 <= i < j - from ==> (is_digit(#[trigger] m[i]) || m[i] == '.')),
            has_digit == (exists|i: int| 0 <= i < j - from && is_digit(#[trigger] m[i])),
            all_zero == (forall|i: int|
                0 <= i < j - from && is_digit(#[trigger] m[i]) ==> m[i] == '0'),
            dots <= 2,
            dots == 0 ==> forall|i: int| 0 <= i < j - from ==> m[i] != '.',
            dots == 1 ==> 0 <= first_dot < j - from && m[first_dot] == '.' && (forall|i: int|
                0 <= i < j - from && i != first_dot ==> m[i] != '.'),
            dots >= 2 ==> (exists|a: int, b: int|
                0 <= a < j - from && 0 <= b < j - from && a != b && #[trigger] m[a] == '.'
                    && #[trigger] m[b] == '.'),
        decreases to - j,
    {
        let c = v[j];
        proof {
            assert(m[j - from] == c);
        }
        if '0' <= c && c <= '9' {
            has_digit = true;
            if c != '0' {
                all_zero = false;
            }
        } else if c == '.' {
            if dots == 0 {
                proof {
                    first_dot = j - from;
                }
            }
            if dots < 2 {
                dots = dots + 1;
            }
        } else {
            bad = true;
        }
        j += 1;
    }
    proof {
        assert(m.len() == to - from);
    }
    let valid = !bad && has_digit && dots <= 1;
    proof {
        if valid {
            assert(is_mantissa(m));
        } else {
            if bad {
                assert(!is_mantissa(m));
            } else if !has_digit {
                assert(!is_mantissa(m));
            } else {
                assert(dots >= 2);
                assert(!is_mantissa(m));
            }
        }
    }
    (valid, all_zero)
}

/// Whether the range starting at `from` is a valid exponent body.
fn check_exp(v: &Vec<char>, from: usize) -> (b: bool)
    requires
        from <= v.len(),
    ensures
        b == is_exp_part(v@.skip(from as int)),
{
    let ghost e = v@.skip(from as int);
    let n = v.len();
    let start: usize = if from < n && (v[from] == '+' || v[from] == '-') {
        from + 1
    } else {
        from
    };
    let ghost d = if e.len() > 0 && (e[0] == '+' || e[0] == '-') {
        e.drop_first()
    } else {
        e
    };
    proof {
        assert(e.len() > 0 ==> e[0] == v@[from as int]);
        assert(d =~= v@.skip(start as int));
    }
    if start >= n {
        proof {
            assert(d.len() == 0);
        }
        return false;
    }
    let mut j: usize = start;
    while j < n
        invariant
            start <= j <= n == v.len(),
            d == v@.skip(start as int),
            is_exp_part(v@.skip(from as int)) == (d.len() > 0 && all_digits(d)),
            forall|i: int| 0 <= i < j - start ==> is_digit(#[trigger] d[i]),
        decreases n - j,
    {
        let c = v[j];
        proof {
            assert(d[j - start] == v@[j as int]);
        }
        if !('0' <= c && c <= '9') {
            proof {
                assert(!is_digit(d[j - start]));
            }
            return false;
        }
        j += 1;
    }
    proof {
        assert(d.len() == n - start);
        assert(all_digits(d));
    }
    true
}

/// Whether the body beginning at `from` is one special word, in any case.
fn check_special(v: &Vec<char>, from: usize) -> (r: bool)
    requires
        from <= v.len(),
    ensures
        r == is_special(v@.skip(from as int)),
{
    let ghost b = v@.skip(from as int);
    let n = v.len();
    let len = n - from;
    if len == 3 {
        let c0 = v[from];
        let c1 = v[from + 1];
        let c2 = v[from + 2];
        proof {
            assert(b[0] == v@[from as int] && b[1] == v@[from + 1] && b[2] == v@[from + 2]);
        }
        let inf = (c0 == 'i' || c0 == 'I') && (c1 == 'n' || c1 == 'N') && (c2 == 'f' || c2 == 'F');
        let nan = (c0 == 'n' || c0 == 'N') && (c1 == 'a' || c1 == 'A') && (c2 == 'n' || c2 == 'N');
        inf || nan
    } else if len == 8 {
        let c0 = v[from];
        let c1 = v[from + 1];
        let c2 = v[from + 2];
        let c3 = v[from + 3];
        let c4 = v[from + 4];
        let c5 = v[from + 5];
        let c6 = v[from + 6];
        let c7 = v[from + 7];
        proof {
            assert(b[0] == v@[from as int] && b[1] == v@[from + 1] && b[2] == v@[from + 2] && b[3]
                == v@[from + 3] && b[4] == v@[from + 4] && b[5] == v@[from + 5] && b[6] == v@[from
                + 6] && b[7] == v@[from + 7]);
        }
        (c0 == 'i' || c0 == 'I') && (c1 == 'n' || c1 == 'N') && (c2 == 'f' || c2 == 'F') && (c3
            == 'i' || c3 == 'I') && (c4 == 'n' || c4 == 'N') && (c5 == 'i' || c5 == 'I') && (c6
            == 't' || c6 == 'T') && (c7 == 'y' || c7 == 'Y')
    } else {
        false
    }
}

/// Whether the body beginning at `from` is a signless number, and whether
/// its mantissa digits are all zero.
fn check_number(v: &Vec<char>, from: usize) -> (r: (bool, bool))
    requires
        from <= v.len(),
    ensures
        r.0 == is_number(v@.skip(from as int)),
        r.0 ==> r.1 == zero_digits(mantissa_of(v@.skip(from as int))),
{
    let ghost b = v@.skip(from as int);
    let n = v.len();
    let mut e_pos: usize = n;
    let mut j: usize = from;
    while j < n && e_pos == n
        invariant
            from <= j <= n == v.len(),
            b == v@.skip(from as int),
            forall|i: int| 0 <= i < j - from ==> #[trigger] b[i] != 'e' && b[i] != 'E',
            e_pos != n ==> from <= e_pos < n && j == e_pos && (b[e_pos - from] == 'e' || b[e_pos
                - from] == 'E'),
        decreases n - j + (if e_pos == n {
            1int
        } else {
            0int
        }),
    {
        let c = v[j];
        proof {
            assert(b[j - from] == v@[j as int]);
        }
        if c == 'e' || c == 'E' {
            e_pos = j;
        } else {
            j += 1;
        }
    }
    proof {
        if e_pos == n {
            lemma_first_exp_is(b, b.len() as int);
        } else {
            lemma_first_exp_is(b, e_pos - from);
        }
    }
    if e_pos == n {
        proof {
            assert(mantissa_of(b) =~= v@.subrange(from as int, n as int));
        }
        scan_mantissa(v, from, n)
    } else {
        proof {
            assert(mantissa_of(b) =~= v@.subrange(from as int, e_pos as int));
            assert(b.skip(e_pos - from + 1) =~= v@.skip(e_pos + 1));
        }
        let (m_ok, m_zero) = scan_mantissa(v, from, e_pos);
        let e_ok = check_exp(v, e_pos + 1);
        (m_ok && e_ok, m_zero)
    }
}

/// Whether a field is a valid floating-point literal.
pub fn is_numeric_field(s: &str) -> (b: bool)
    ensures
        b == is_float_literal(s@),
{
    let v = chars_of(s);
    let n = v.len();
    let off: usize = if n > 0 && (v[0] == '+' || v[0] == '-') {
        1
    } else {
        0
    };
    proof {
        assert(strip_sign(s@) =~= v@.skip(off as int));
    }
    if check_special(&v, off) {
        return true;
    }
    check_number(&v, off).0
}

/// Whether a field is a numeric literal denoting the value zero.
pub fn is_zero_field(s: &str) -> (b: bool)
    ensures
        b == denotes_zero(s@),
{
    let v = chars_of(s);
    let n = v.len();
    let off: usize = if n > 0 && (v[0] == '+' || v[0] == '-') {
        1
    } else {
        0
    };
    proof {
        assert(strip_sign(s@) =~= v@.skip(off as int));
    }
    let (ok, zero) = check_number(&v, off);
    ok && zero
}

} // verus!
