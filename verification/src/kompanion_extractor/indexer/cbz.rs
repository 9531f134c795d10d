//! Comic book archives (`.cbz`): the cover is the first image page in
//! natural order unless `ComicInfo.xml` marks another one as front cover.
use vstd::prelude::*;
use std::cmp::Ordering;
use vstd::multiset::Multiset;
use crate::text::{
    ascii_lower, ascii_lowercase, chars_of, chars_eq_ignore_ascii_case, eq_ignore_ascii_case,
    is_digit, string_from_chars, to_ascii_lower, to_ascii_lowercase, trim, trimmed, ends_with,
    is_suffix, find_char, find_char_pos, slice_chars, concat, opt_seq, decimal, digit_char,
    lemma_decimal_digits, lemma_decimal_len_monotone,
};
use crate::path::{extension, extension_from, file_name, file_name_of, file_prefix, file_prefix_of};
use crate::kompanion_core::indexer::{FileIndexer, IndexMetadata, MetadataMap};
use vstd::string::*;
use super::ArchiveEntry;

verus! {

/// The length of the run of ASCII digits that starts `s`.
pub open spec fn digit_run(s: Seq<char>) -> int
    decreases s.len(),
{
    if s.len() > 0 && is_digit(s[0]) {
        1 + digit_run(s.drop_first())
    } else {
        0
    }
}

/// The number of `'0'` characters that start `s`.
pub open spec fn zero_run(s: Seq<char>) -> int
    decreases s.len(),
{
    if s.len() > 0 && s[0] == '0' {
        1 + zero_run(s.drop_first())
    } else {
        0
    }
}

pub proof fn lemma_digit_run(s: Seq<char>)
    ensures
        0 <= zero_run(s) <= digit_run(s) <= s.len(),
        s.len() > 0 && is_digit(s[0]) ==> digit_run(s) >= 1,
        forall|k: int| 0 <= k < digit_run(s) ==> is_digit(#[trigger] s[k]),
        digit_run(s) < s.len() ==> !is_digit(s[digit_run(s)]),
        forall|k: int| 0 <= k < zero_run(s) ==> #[trigger] s[k] == '0',
        zero_run(s) < s.len() ==> s[zero_run(s)] != '0',
    decreases s.len(),
{
    if s.len() > 0 {
        let t = s.drop_first();
        lemma_digit_run(t);
        assert forall|k: int| 0 <= k < digit_run(s) implies is_digit(#[trigger] s[k]) by {
            if k > 0 {
                assert(s[k] == t[k - 1]);
            }
        }
        assert forall|k: int| 0 <= k < zero_run(s) implies #[trigger] s[k] == '0' by {
            if k > 0 {
                assert(s[k] == t[k - 1]);
            }
        }
        if digit_run(s) > 0 && digit_run(s) < s.len() {
            assert(s[digit_run(s)] == t[digit_run(s) - 1]);
        }
        if zero_run(s) > 0 && zero_run(s) < s.len() {
            assert(s[zero_run(s)] == t[zero_run(s) - 1]);
        }
    }
}

/// -1, 0 or 1 as `x` is below, equal to or above `y`.
pub open spec fn sign(x: int, y: int) -> int {
    if x < y {
        -1
    } else if x > y {
        1
    } else {
        0
    }
}

/// Lexicographic order of character sequences (-1, 0, 1).
pub open spec fn lex_order(a: Seq<char>, b: Seq<char>) -> int
    decreases a.len(),
{
    if a.len() == 0 {
        if b.len() == 0 {
            0
        } else {
            -1
        }
    } else if b.len() == 0 {
        1
    } else if a[0] != b[0] {
        if a[0] < b[0] {
            -1
        } else {
            1
        }
    } else {
        lex_order(a.drop_first(), b.drop_first())
    }
}

/// The order of two digit runs by value: fewer significant digits is smaller,
/// then digit by digit; equal values order by run length.
pub open spec fn digits_order(da: Seq<char>, db: Seq<char>) -> int {
    let ta = da.subrange(zero_run(da), da.len() as int);
    let tb = db.subrange(zero_run(db), db.len() as int);
    if ta.len() != tb.len() {
        sign(ta.len() as int, tb.len() as int)
    } else if lex_order(ta, tb) != 0 {
        lex_order(ta, tb)
    } else {
        sign(da.len() as int, db.len() as int)
    }
}

/// Natural order of file names (-1, 0, 1): runs of digits compare by their
/// numeric value, other characters one by one ignoring ASCII case.
pub open spec fn natural_order(a: Seq<char>, b: Seq<char>) -> int
    decreases a.len() + b.len(),
{
    if a.len() == 0 {
        if b.len() == 0 {
            0
        } else {
            -1
        }
    } else if b.len() == 0 {
        1
    } else if is_digit(a[0]) && is_digit(b[0]) {
        let na = digit_run(a);
        let nb = digit_run(b);
        proof {
            lemma_digit_run(a);
            lemma_digit_run(b);
        }
        let o = digits_order(a.subrange(0, na), b.subrange(0, nb));
        if o != 0 {
            o
        } else {
            natural_order(a.subrange(na, a.len() as int), b.subrange(nb, b.len() as int))
        }
    } else {
        let la = ascii_lower(a[0]);
        let lb = ascii_lower(b[0]);
        if la != lb {
            if la < lb {
                -1
            } else {
                1
            }
        } else {
            natural_order(a.drop_first(), b.drop_first())
        }
    }
}

/// Texts of one length extended by one character each compare first by
/// the texts, then by the characters.
proof fn lemma_lex_order_push(a: Seq<char>, b: Seq<char>, x: char, y: char)
    requires
        a.len() == b.len(),
    ensures
        lex_order(a.push(x), b.push(y)) == if lex_order(a, b) != 0 {
            lex_order(a, b)
        } else {
            lex_order(seq![x], seq![y])
        },
    decreases a.len(),
{
    if a.len() > 0 {
        assert(a.push(x).drop_first() =~= a.drop_first().push(x));
        assert(b.push(y).drop_first() =~= b.drop_first().push(y));
        lemma_lex_order_push(a.drop_first(), b.drop_first(), x, y);
    } else {
        assert(a.push(x) =~= seq![x]);
        assert(b.push(y) =~= seq![y]);
    }
}

/// One-digit numerals compare as their digits.
proof fn lemma_lex_digit_chars(x: int, y: int)
    requires
        0 <= x < 10,
        0 <= y < 10,
    ensures
        lex_order(seq![digit_char(x)], seq![digit_char(y)]) == sign(x, y),
{
    let cx = digit_char(x);
    let cy = digit_char(y);
    assert(cx as u32 == 48 + x);
    assert(cy as u32 == 48 + y);
    assert(x < y ==> cx < cy);
    assert(y < x ==> cy < cx);
    assert(x == y ==> cx == cy);
    let a = seq![cx];
    let b = seq![cy];
    assert(a.drop_first() =~= Seq::<char>::empty());
    assert(b.drop_first() =~= Seq::<char>::empty());
    assert(lex_order(a.drop_first(), b.drop_first()) == 0);
    assert(a[0] == cx && b[0] == cy);
    assert(a.len() == 1 && b.len() == 1);
}

/// Numerals with as many digits compare, digit by digit, as their numbers.
proof fn lemma_decimal_lex(m: nat, n: nat)
    requires
        decimal(m).len() == decimal(n).len(),
    ensures
        lex_order(decimal(m), decimal(n)) == sign(m as int, n as int),
    decreases m,
{
    lemma_decimal_digits(m);
    lemma_decimal_digits(n);
    if m < 10 {
        assert(n < 10);
        lemma_lex_digit_chars(m as int, n as int);
    } else {
        assert(n >= 10);
        let qm = m / 10;
        let qn = n / 10;
        let rm = m % 10;
        let rn = n % 10;
        lemma_decimal_lex(qm, qn);
        lemma_lex_order_push(decimal(qm), decimal(qn), digit_char(rm as int), digit_char(rn as int));
        lemma_lex_digit_chars(rm as int, rn as int);
        assert(m == 10 * qm + rm && n == 10 * qn + rn) by (nonlinear_arith)
            requires
                qm == m / 10,
                qn == n / 10,
                rm == m % 10,
                rn == n % 10,
        ;
        assert(qm < qn ==> m < n) by (nonlinear_arith)
            requires
                m == 10 * qm + rm,
                n == 10 * qn + rn,
                0 <= rm < 10,
                0 <= rn < 10,
        ;
        assert(qn < qm ==> n < m) by (nonlinear_arith)
            requires
                m == 10 * qm + rm,
                n == 10 * qn + rn,
                0 <= rm < 10,
                0 <= rn < 10,
        ;
    }
}

/// Numerals of different numbers compare by value in digit-run order.
proof fn lemma_digits_order_decimal(m: nat, n: nat)
    requires
        m != n,
    ensures
        digits_order(decimal(m), decimal(n)) == sign(m as int, n as int),
{
    lemma_decimal_digits(m);
    lemma_decimal_digits(n);
    let dm = decimal(m);
    let dn = decimal(n);
    assert(m >= 1 ==> zero_run(dm) == 0);
    assert(n >= 1 ==> zero_run(dn) == 0);
    if m == 0 {
        assert(zero_run(dm) == 1) by {
            assert(dm[0] == '0');
            assert(zero_run(dm.drop_first()) == 0);
        }
    }
    if n == 0 {
        assert(zero_run(dn) == 1) by {
            assert(dn[0] == '0');
            assert(zero_run(dn.drop_first()) == 0);
        }
    }
    let ta = dm.subrange(zero_run(dm), dm.len() as int);
    let tb = dn.subrange(zero_run(dn), dn.len() as int);
    if m >= 1 && n >= 1 {
        assert(ta =~= dm);
        assert(tb =~= dn);
        if dm.len() == dn.len() {
            lemma_decimal_lex(m, n);
        } else if m < n {
            lemma_decimal_len_monotone(m, n);
        } else {
            lemma_decimal_len_monotone(n, m);
        }
    }
}

/// A run of digits followed by a text that does not start with a digit is
/// the whole digit run of their concatenation.
proof fn lemma_digit_run_of(d: Seq<char>, q: Seq<char>)
    requires
        forall|i: int| 0 <= i < d.len() ==> is_digit(#[trigger] d[i]),
        q.len() == 0 || !is_digit(q[0]),
    ensures
        digit_run(d + q) == d.len(),
    decreases d.len(),
{
    if d.len() > 0 {
        assert((d + q).drop_first() =~= d.drop_first() + q);
        assert forall|i: int| 0 <= i < d.drop_first().len() implies is_digit(#[trigger] d.drop_first()[i]) by {
            assert(d.drop_first()[i] == d[i + 1]);
        }
        lemma_digit_run_of(d.drop_first(), q);
        assert((d + q)[0] == d[0]);
    } else {
        assert(d + q =~= q);
    }
}

/// The digit run of a text that ends inside the text is unchanged by what
/// follows it.
proof fn lemma_digit_run_prefix(s: Seq<char>, t: Seq<char>)
    requires
        digit_run(s) < s.len(),
    ensures
        digit_run(s + t) == digit_run(s),
    decreases s.len(),
{
    if is_digit(s[0]) {
        assert((s + t).drop_first() =~= s.drop_first() + t);
        lemma_digit_run_prefix(s.drop_first(), t);
    }
    assert((s + t)[0] == s[0]);
}

/// A common beginning that ends in a character other than a digit does not
/// change the natural order of two names.
pub proof fn lemma_natural_order_common_prefix(p: Seq<char>, x: Seq<char>, y: Seq<char>)
    requires
        p.len() == 0 || !is_digit(p.last()),
    ensures
        natural_order(p + x, p + y) == natural_order(x, y),
    decreases p.len(),
{
    if p.len() == 0 {
        assert(p + x =~= x);
        assert(p + y =~= y);
    } else {
        let a = p + x;
        let b = p + y;
        assert(a[0] == p[0] && b[0] == p[0]);
        if is_digit(p[0]) {
            lemma_digit_run(p);
            let r = digit_run(p);
            assert(r < p.len()) by {
                if r >= p.len() {
                    assert(is_digit(p[p.len() - 1]));
                }
            }
            lemma_digit_run_prefix(p, x);
            lemma_digit_run_prefix(p, y);
            lemma_digit_run(a);
            lemma_digit_run(b);
            assert(a.subrange(0, r) =~= p.subrange(0, r));
            assert(b.subrange(0, r) =~= p.subrange(0, r));
            lemma_digits_order_reflexive(p.subrange(0, r));
            let p2 = p.subrange(r, p.len() as int);
            assert(a.subrange(r, a.len() as int) =~= p2 + x);
            assert(b.subrange(r, b.len() as int) =~= p2 + y);
            assert(p2.last() == p.last());
            lemma_natural_order_common_prefix(p2, x, y);
        } else {
            assert(a.drop_first() =~= p.drop_first() + x);
            assert(b.drop_first() =~= p.drop_first() + y);
            if p.len() > 1 {
                assert(p.drop_first().last() == p.last());
            }
            lemma_natural_order_common_prefix(p.drop_first(), x, y);
        }
    }
}

/// Numbers in names compare by their value: two names that agree up to a
/// number (the text before it not ending in a digit) order as the numbers
/// do, whatever follows each number (when that does not start with a
/// digit). So `page2` comes before `page10`.
pub proof fn lemma_natural_order_numbers(p: Seq<char>, m: nat, n: nat, q1: Seq<char>, q2: Seq<char>)
    requires
        m != n,
        p.len() == 0 || !is_digit(p.last()),
        q1.len() == 0 || !is_digit(q1[0]),
        q2.len() == 0 || !is_digit(q2[0]),
    ensures
        natural_order(p + decimal(m) + q1, p + decimal(n) + q2) == sign(m as int, n as int),
{
    let a = decimal(m) + q1;
    let b = decimal(n) + q2;
    assert(p + decimal(m) + q1 =~= p + a);
    assert(p + decimal(n) + q2 =~= p + b);
    lemma_natural_order_common_prefix(p, a, b);
    lemma_decimal_digits(m);
    lemma_decimal_digits(n);
    lemma_digit_run_of(decimal(m), q1);
    lemma_digit_run_of(decimal(n), q2);
    assert(a[0] == decimal(m)[0]);
    assert(b[0] == decimal(n)[0]);
    assert(a.subrange(0, decimal(m).len() as int) =~= decimal(m));
    assert(b.subrange(0, decimal(n).len() as int) =~= decimal(n));
    lemma_digits_order_decimal(m, n);
}

/// The -1/0/1 value of an ordering.
pub open spec fn ordering_value(o: Ordering) -> int {
    match o {
        Ordering::Less => -1,
        Ordering::Equal => 0,
        Ordering::Greater => 1,
    }
}

/// Lexicographic order is antisymmetric.
pub proof fn lemma_lex_order_antisymmetric(a: Seq<char>, b: Seq<char>)
    ensures
        lex_order(a, b) == -lex_order(b, a),
        -1 <= lex_order(a, b) <= 1,
    decreases a.len(),
{
    if a.len() > 0 && b.len() > 0 && a[0] == b[0] {
        lemma_lex_order_antisymmetric(a.drop_first(), b.drop_first());
    }
}

/// Lexicographic order is zero exactly on equal sequences.
pub proof fn lemma_lex_order_equal(a: Seq<char>, b: Seq<char>)
    ensures
        lex_order(a, b) == 0 <==> a == b,
    decreases a.len(),
{
    if a.len() > 0 && b.len() > 0 && a[0] == b[0] {
        lemma_lex_order_equal(a.drop_first(), b.drop_first());
        if a.drop_first() == b.drop_first() {
            assert(a =~= b) by {
                assert forall|i: int| 0 <= i < a.len() implies a[i] == b[i] by {
                    if i > 0 {
                        assert(a[i] == a.drop_first()[i - 1]);
                        assert(b[i] == b.drop_first()[i - 1]);
                    }
                }
            }
        }
    } else if a.len() > 0 && b.len() > 0 {
        assert(a[0] != b[0]);
    } else if a.len() == 0 && b.len() == 0 {
        assert(a =~= b);
    }
}

/// Comparing two names in either order gives opposite results.
pub proof fn lemma_natural_order_antisymmetric(a: Seq<char>, b: Seq<char>)
    ensures
        natural_order(a, b) == -natural_order(b, a),
        -1 <= natural_order(a, b) <= 1,
    decreases a.len() + b.len(),
{
    if a.len() > 0 && b.len() > 0 {
        lemma_digit_run(a);
        lemma_digit_run(b);
        if is_digit(a[0]) && is_digit(b[0]) {
            let da = a.subrange(0, digit_run(a));
            let db = b.subrange(0, digit_run(b));
            let ta = da.subrange(zero_run(da), da.len() as int);
            let tb = db.subrange(zero_run(db), db.len() as int);
            lemma_lex_order_antisymmetric(ta, tb);
            lemma_natural_order_antisymmetric(
                a.subrange(digit_run(a), a.len() as int),
                b.subrange(digit_run(b), b.len() as int),
            );
        } else if ascii_lower(a[0]) == ascii_lower(b[0]) {
            lemma_natural_order_antisymmetric(a.drop_first(), b.drop_first());
        }
    }
}

/// Every name is equal to itself in natural order.
pub proof fn lemma_natural_order_reflexive(a: Seq<char>)
    ensures
        natural_order(a, a) == 0,
    decreases a.len(),
{
    if a.len() > 0 {
        lemma_digit_run(a);
        if is_digit(a[0]) {
            let da = a.subrange(0, digit_run(a));
            let ta = da.subrange(zero_run(da), da.len() as int);
            lemma_lex_order_equal(ta, ta);
            lemma_natural_order_reflexive(a.subrange(digit_run(a), a.len() as int));
        } else {
            lemma_natural_order_reflexive(a.drop_first());
        }
    }
}

/// Lexicographic order is transitive.
pub proof fn lemma_lex_order_transitive(a: Seq<char>, b: Seq<char>, c: Seq<char>)
    requires
        lex_order(a, b) <= 0,
        lex_order(b, c) <= 0,
    ensures
        lex_order(a, c) <= 0,
    decreases a.len(),
{
    if a.len() > 0 && b.len() > 0 && c.len() > 0 && a[0] == b[0] && b[0] == c[0] {
        lemma_lex_order_transitive(a.drop_first(), b.drop_first(), c.drop_first());
    }
}

/// Two digit runs are equal in value order only when they are the same run.
pub proof fn lemma_digits_order_equal(da: Seq<char>, db: Seq<char>)
    requires
        digits_order(da, db) == 0,
    ensures
        da == db,
{
    lemma_digit_run(da);
    lemma_digit_run(db);
    let ta = da.subrange(zero_run(da), da.len() as int);
    let tb = db.subrange(zero_run(db), db.len() as int);
    lemma_lex_order_equal(ta, tb);
    assert(zero_run(da) == zero_run(db));
    assert forall|i: int| 0 <= i < da.len() implies da[i] == db[i] by {
        if i >= zero_run(da) {
            assert(da[i] == ta[i - zero_run(da)]);
            assert(db[i] == tb[i - zero_run(db)]);
        }
    }
    assert(da =~= db);
}

/// Value order of digit runs is antisymmetric and transitive.
pub proof fn lemma_digits_order(da: Seq<char>, db: Seq<char>, dc: Seq<char>)
    ensures
        digits_order(da, db) == -digits_order(db, da),
        -1 <= digits_order(da, db) <= 1,
        digits_order(da, db) <= 0 && digits_order(db, dc) <= 0 ==> digits_order(da, dc) <= 0,
{
    lemma_digit_run(da);
    lemma_digit_run(db);
    lemma_digit_run(dc);
    let ta = da.subrange(zero_run(da), da.len() as int);
    let tb = db.subrange(zero_run(db), db.len() as int);
    let tc = dc.subrange(zero_run(dc), dc.len() as int);
    lemma_lex_order_antisymmetric(ta, tb);
    lemma_lex_order_antisymmetric(tb, tc);
    lemma_lex_order_antisymmetric(ta, tc);
    lemma_lex_order_equal(ta, tb);
    lemma_lex_order_equal(tb, tc);
    lemma_lex_order_equal(ta, tc);
    if digits_order(da, db) <= 0 && digits_order(db, dc) <= 0 && ta.len() == tb.len() && tb.len()
        == tc.len() {
        lemma_lex_order_transitive(ta, tb, tc);
        if lex_order(ta, tc) == 0 {
            lemma_lex_order_transitive(tc, ta, tb);
        }
    }
}

/// The class of the first character for natural order: digits all count
/// as `'0'`, other characters by their ASCII lower case.
pub open spec fn head_key(a: Seq<char>) -> u32 {
    if is_digit(a[0]) {
        48
    } else {
        ascii_lower(a[0]) as u32
    }
}

/// A character that is not a digit stays outside the digits when lowered.
proof fn lemma_lower_not_digit(c: char)
    requires
        !is_digit(c),
    ensures
        !is_digit(ascii_lower(c)),
        (ascii_lower(c) as u32) < 48 || (ascii_lower(c) as u32) > 57,
{
}

/// Different first-character classes decide natural order; equal classes
/// are of the same kind.
proof fn lemma_head_key(a: Seq<char>, b: Seq<char>)
    requires
        a.len() > 0,
        b.len() > 0,
    ensures
        head_key(a) < head_key(b) ==> natural_order(a, b) == -1,
        head_key(a) > head_key(b) ==> natural_order(a, b) == 1,
        head_key(a) == head_key(b) ==> is_digit(a[0]) == is_digit(b[0]),
        head_key(a) == head_key(b) && !is_digit(a[0]) ==> ascii_lower(a[0]) == ascii_lower(b[0]),
        natural_order(a, b) <= 0 ==> head_key(a) <= head_key(b),
{
    lemma_digit_run(a);
    lemma_digit_run(b);
    if !is_digit(a[0]) {
        lemma_lower_not_digit(a[0]);
    }
    if !is_digit(b[0]) {
        lemma_lower_not_digit(b[0]);
    }
    lemma_natural_order_antisymmetric(a, b);
}

/// Natural order is transitive: it is a total preorder of names.
pub proof fn lemma_natural_order_transitive(a: Seq<char>, b: Seq<char>, c: Seq<char>)
    requires
        natural_order(a, b) <= 0,
        natural_order(b, c) <= 0,
    ensures
        natural_order(a, c) <= 0,
    decreases a.len(),
{
    if a.len() > 0 {
        assert(b.len() > 0);
        assert(c.len() > 0);
        lemma_head_key(a, b);
        lemma_head_key(b, c);
        lemma_head_key(a, c);
        if head_key(a) == head_key(b) && head_key(b) == head_key(c) {
            lemma_digit_run(a);
            lemma_digit_run(b);
            lemma_digit_run(c);
            if is_digit(a[0]) {
                let da = a.subrange(0, digit_run(a));
                let db = b.subrange(0, digit_run(b));
                let dc = c.subrange(0, digit_run(c));
                lemma_digits_order(da, db, dc);
                lemma_digits_order(dc, da, db);
                lemma_digits_order(db, dc, da);
                if digits_order(da, db) == 0 && digits_order(db, dc) == 0 {
                    lemma_digits_order_equal(da, db);
                    lemma_digits_order_equal(db, dc);
                    lemma_natural_order_transitive(
                        a.subrange(digit_run(a), a.len() as int),
                        b.subrange(digit_run(b), b.len() as int),
                        c.subrange(digit_run(c), c.len() as int),
                    );
                } else if digits_order(da, dc) == 0 {
                    lemma_digits_order_equal(da, dc);
                }
            } else {
                lemma_natural_order_transitive(a.drop_first(), b.drop_first(), c.drop_first());
            }
        }
    }
}

/// `a` and `b` agree character by character up to ASCII case.
pub open spec fn same_up_to_case(a: Seq<char>, b: Seq<char>) -> bool {
    a.len() == b.len() && forall|i: int| 0 <= i < a.len() ==> ascii_lower(#[trigger] a[i]) == ascii_lower(b[i])
}

/// Lower-casing keeps digits as they are and non-digits non-digits.
proof fn lemma_lower_digit(c: char)
    ensures
        is_digit(ascii_lower(c)) == is_digit(c),
        is_digit(c) ==> ascii_lower(c) == c,
{
}

/// Names that agree up to ASCII case have the same first digit run.
proof fn lemma_same_digit_run(a: Seq<char>, b: Seq<char>)
    requires
        same_up_to_case(a, b),
    ensures
        digit_run(a) == digit_run(b),
        forall|k: int| 0 <= k < digit_run(a) ==> #[trigger] a[k] == b[k],
{
    lemma_digit_run(a);
    lemma_digit_run(b);
    let na = digit_run(a);
    let nb = digit_run(b);
    if na < nb {
        lemma_lower_digit(a[na]);
        lemma_lower_digit(b[na]);
        assert(ascii_lower(a[na]) == ascii_lower(b[na]));
    } else if nb < na {
        lemma_lower_digit(a[nb]);
        lemma_lower_digit(b[nb]);
        assert(ascii_lower(a[nb]) == ascii_lower(b[nb]));
    }
    assert forall|k: int| 0 <= k < digit_run(a) implies #[trigger] a[k] == b[k] by {
        lemma_lower_digit(a[k]);
        lemma_lower_digit(b[k]);
        assert(ascii_lower(a[k]) == ascii_lower(b[k]));
    }
}

/// Two names are equal in natural order exactly when they agree up to
/// ASCII case: leading zeros count, letter case does not.
pub proof fn lemma_natural_order_zero(a: Seq<char>, b: Seq<char>)
    ensures
        natural_order(a, b) == 0 <==> ascii_lowercase(a) == ascii_lowercase(b),
{
    lemma_natural_order_zero_fold(a, b);
    if same_up_to_case(a, b) {
        assert(ascii_lowercase(a) =~= ascii_lowercase(b));
    }
    assert(ascii_lowercase(a).len() == a.len());
    assert(ascii_lowercase(b).len() == b.len());
    if ascii_lowercase(a) == ascii_lowercase(b) {
        assert forall|i: int| 0 <= i < a.len() implies ascii_lower(#[trigger] a[i]) == ascii_lower(b[i]) by {
            assert(ascii_lowercase(a)[i] == ascii_lower(a[i]));
            assert(ascii_lowercase(b)[i] == ascii_lower(b[i]));
        }
        assert(same_up_to_case(a, b));
    }
}

/// `lemma_natural_order_zero`, character by character.
proof fn lemma_natural_order_zero_fold(a: Seq<char>, b: Seq<char>)
    ensures
        natural_order(a, b) == 0 <==> same_up_to_case(a, b),
    decreases a.len() + b.len(),
{
    lemma_natural_order_antisymmetric(a, b);
    if a.len() > 0 && b.len() > 0 {
        lemma_digit_run(a);
        lemma_digit_run(b);
        lemma_head_key(a, b);
        lemma_lower_digit(a[0]);
        lemma_lower_digit(b[0]);
        let na = digit_run(a);
        let nb = digit_run(b);
        if is_digit(a[0]) && is_digit(b[0]) {
            let da = a.subrange(0, na);
            let db = b.subrange(0, nb);
            let ra = a.subrange(na, a.len() as int);
            let rb = b.subrange(nb, b.len() as int);
            lemma_digits_order(da, db, db);
            lemma_natural_order_zero_fold(ra, rb);
            if same_up_to_case(a, b) {
                lemma_same_digit_run(a, b);
                assert(da =~= db);
                lemma_digits_order_reflexive(da);
                assert forall|i: int| 0 <= i < ra.len() implies ascii_lower(#[trigger] ra[i]) == ascii_lower(
                    rb[i],
                ) by {
                    assert(ra[i] == a[na + i]);
                    assert(rb[i] == b[nb + i]);
                    assert(ascii_lower(a[na + i]) == ascii_lower(b[na + i]));
                }
            }
            if natural_order(a, b) == 0 {
                assert(digits_order(da, db) == 0);
                lemma_digits_order_equal(da, db);
                assert forall|i: int| 0 <= i < a.len() implies ascii_lower(#[trigger] a[i]) == ascii_lower(
                    b[i],
                ) by {
                    if i < na {
                        assert(a[i] == da[i]);
                        assert(b[i] == db[i]);
                    } else {
                        assert(a[i] == ra[i - na]);
                        assert(b[i] == rb[i - na]);
                    }
                }
            }
        } else if !is_digit(a[0]) && !is_digit(b[0]) {
            let ra = a.drop_first();
            let rb = b.drop_first();
            lemma_natural_order_zero_fold(ra, rb);
            if same_up_to_case(a, b) {
                assert(ascii_lower(a[0]) == ascii_lower(b[0]));
                assert forall|i: int| 0 <= i < ra.len() implies ascii_lower(#[trigger] ra[i]) == ascii_lower(
                    rb[i],
                ) by {
                    assert(ra[i] == a[i + 1]);
                    assert(rb[i] == b[i + 1]);
                    assert(ascii_lower(a[i + 1]) == ascii_lower(b[i + 1]));
                }
            }
            if natural_order(a, b) == 0 {
                assert forall|i: int| 0 <= i < a.len() implies ascii_lower(#[trigger] a[i]) == ascii_lower(
                    b[i],
                ) by {
                    if i > 0 {
                        assert(a[i] == ra[i - 1]);
                        assert(b[i] == rb[i - 1]);
                    }
                }
            }
        } else {
            if same_up_to_case(a, b) {
                assert(ascii_lower(a[0]) == ascii_lower(b[0]));
            }
        }
    } else if a.len() == 0 && b.len() == 0 {
    } else {
        if same_up_to_case(a, b) {
            assert(a.len() == b.len());
        }
    }
}

/// A digit run is equal to itself in value order.
proof fn lemma_digits_order_reflexive(d: Seq<char>)
    ensures
        digits_order(d, d) == 0,
{
    let t = d.subrange(zero_run(d), d.len() as int);
    lemma_lex_order_equal(t, t);
}

/// The end of the run of ASCII digits that starts at `start`.
pub fn take_digits(s: &[char], start: usize) -> (r: usize)
    requires
        start <= s@.len(),
    ensures
        start <= r <= s@.len(),
        r - start == digit_run(s@.subrange(start as int, s@.len() as int)),
{
    let mut k = start;
    while k < s.len() && '0' <= s[k] && s[k] <= '9'
        invariant
            start <= k <= s@.len(),
            digit_run(s@.subrange(start as int, s@.len() as int)) == (k - start) + digit_run(
                s@.subrange(k as int, s@.len() as int),
            ),
        decreases s@.len() - k,
    {
        assert(s@.subrange(k as int, s@.len() as int).drop_first() =~= s@.subrange(
            k + 1,
            s@.len() as int,
        ));
        k = k + 1;
    }
    k
}

/// The end of the run of `'0'` that starts at `start` (not past `end`).
fn skip_zeros(s: &[char], start: usize, end: usize) -> (r: usize)
    requires
        start <= end <= s@.len(),
        forall|k: int| start <= k < end ==> is_digit(#[trigger] s@[k]),
    ensures
        start <= r <= end,
        r - start == zero_run(s@.subrange(start as int, end as int)),
{
    let mut k = start;
    while k < end && s[k] == '0'
        invariant
            start <= k <= end,
            end <= s@.len(),
            zero_run(s@.subrange(start as int, end as int)) == (k - start) + zero_run(
                s@.subrange(k as int, end as int),
            ),
        decreases end - k,
    {
        assert(s@.subrange(k as int, end as int).drop_first() =~= s@.subrange(
            k + 1,
            end as int,
        ));
        k = k + 1;
    }
    k
}

/// Lexicographic order of `a[i0..i0+n]` and `b[j0..j0+n]`.
fn lex_order_ranges(a: &[char], i0: usize, b: &[char], j0: usize, n: usize) -> (r: i8)
    requires
        i0 + n <= a@.len(),
        j0 + n <= b@.len(),
    ensures
        r == lex_order(a@.subrange(i0 as int, i0 + n), b@.subrange(j0 as int, j0 + n)),
{
    let mut k: usize = 0;
    while k < n
        invariant
            k <= n,
            a@.len() == a.len(),
            b@.len() == b.len(),
            i0 + n <= a@.len(),
            j0 + n <= b@.len(),
            lex_order(a@.subrange(i0 as int, i0 + n), b@.subrange(j0 as int, j0 + n)) == lex_order(
                a@.subrange(i0 + k, i0 + n),
                b@.subrange(j0 + k, j0 + n),
            ),
        decreases n - k,
    {
        let x = a[i0 + k];
        let y = b[j0 + k];
        if x != y {
            return if x < y {
                -1
            } else {
                1
            };
        }
        assert(a@.subrange(i0 + k, i0 + n).drop_first() =~= a@.subrange(i0 + k + 1, i0 + n));
        assert(b@.subrange(j0 + k, j0 + n).drop_first() =~= b@.subrange(j0 + k + 1, j0 + n));
        k = k + 1;
    }
    0
}

/// The natural order of two names as -1, 0 or 1.
fn natural_sign(a: &str, b: &str) -> (r: i8)
    ensures
        r == natural_order(a@, b@),
{
    let av = chars_of(a);
    let bv = chars_of(b);
    let mut i: usize = 0;
    let mut j: usize = 0;
    assert(av@.subrange(0, av@.len() as int) =~= av@);
    assert(bv@.subrange(0, bv@.len() as int) =~= bv@);
    loop
        invariant
            i <= av@.len(),
            j <= bv@.len(),
            natural_order(a@, b@) == natural_order(
                av@.subrange(i as int, av@.len() as int),
                bv@.subrange(j as int, bv@.len() as int),
            ),
        decreases av@.len() - i + bv@.len() - j,
    {
        let ghost sa = av@.subrange(i as int, av@.len() as int);
        let ghost sb = bv@.subrange(j as int, bv@.len() as int);
        if i == av.len() {
            if j == bv.len() {
                return 0;
            }
            return -1;
        }
        if j == bv.len() {
            return 1;
        }
        let ca = av[i];
        let cb = bv[j];
        if '0' <= ca && ca <= '9' && '0' <= cb && cb <= '9' {
            let ea = take_digits(av.as_slice(), i);
            let eb = take_digits(bv.as_slice(), j);
            proof {
                lemma_digit_run(sa);
                lemma_digit_run(sb);
                assert forall|k: int| i <= k < ea implies is_digit(#[trigger] av@[k]) by {
                    assert(av@[k] == sa[k - i]);
                }
                assert forall|k: int| j <= k < eb implies is_digit(#[trigger] bv@[k]) by {
                    assert(bv@[k] == sb[k - j]);
                }
            }
            let za = skip_zeros(av.as_slice(), i, ea);
            let zb = skip_zeros(bv.as_slice(), j, eb);
            let ghost da = sa.subrange(0, ea - i);
            let ghost db = sb.subrange(0, eb - j);
            proof {
                assert(da =~= av@.subrange(i as int, ea as int));
                assert(db =~= bv@.subrange(j as int, eb as int));
                assert(da.subrange(zero_run(da), da.len() as int) =~= av@.subrange(za as int, ea as int));
                assert(db.subrange(zero_run(db), db.len() as int) =~= bv@.subrange(zb as int, eb as int));
                assert(sa.subrange(ea - i, sa.len() as int) =~= av@.subrange(ea as int, av@.len() as int));
                assert(sb.subrange(eb - j, sb.len() as int) =~= bv@.subrange(eb as int, bv@.len() as int));
            }
            let la = ea - za;
            let lb = eb - zb;
            if la != lb {
                return if la < lb {
                    -1
                } else {
                    1
                };
            }
            let o = lex_order_ranges(av.as_slice(), za, bv.as_slice(), zb, la);
            proof {
                lemma_lex_order_antisymmetric(
                    av@.subrange(za as int, za + la),
                    bv@.subrange(zb as int, zb + la),
                );
            }
            if o < 0 {
                return -1;
            }
            if o > 0 {
                return 1;
            }
            let na = ea - i;
            let nb = eb - j;
            if na != nb {
                return if na < nb {
                    -1
                } else {
                    1
                };
            }
            i = ea;
            j = eb;
        } else {
            let la = to_ascii_lower(ca);
            let lb = to_ascii_lower(cb);
            if la != lb {
                return if la < lb {
                    -1
                } else {
                    1
                };
            }
            assert(sa.drop_first() =~= av@.subrange(i + 1, av@.len() as int));
            assert(sb.drop_first() =~= bv@.subrange(j + 1, bv@.len() as int));
            i = i + 1;
            j = j + 1;
        }
    }
}

/// Natural order of two names: digit runs compare by value, so `page2`
/// comes before `page10`; letters compare ignoring ASCII case.
pub fn natural_cmp(a: &str, b: &str) -> (r: Ordering)
    ensures
        ordering_value(r) == natural_order(a@, b@),
{
    let v = natural_sign(a, b);
    proof {
        lemma_natural_order_antisymmetric(a@, b@);
    }
    if v < 0 {
        Ordering::Less
    } else if v == 0 {
        Ordering::Equal
    } else {
        Ordering::Greater
    }
}


/// One page listed in `ComicInfo.xml`.
pub struct ComicPage {
    /// Index into the naturally sorted image list.
    pub image: Option<u32>,
    /// The page type, e.g. `FrontCover` or `Story`.
    pub kind: Option<String>,
}

/// The `Pages` element of `ComicInfo.xml`.
pub struct ComicPages {
    pub page: Vec<ComicPage>,
}

/// The part of `ComicInfo.xml` (ComicRack schema) the indexer reads.
pub struct ComicInfo {
    pub title: Option<String>,
    pub series: Option<String>,
    pub number: Option<String>,
    pub writer: Option<String>,
    pub language_iso: Option<String>,
    pub publisher: Option<String>,
    pub pages: Option<ComicPages>,
}

/// The trimmed value, unless it is missing or blank.
pub open spec fn non_empty_value(value: Option<String>) -> Option<Seq<char>> {
    match value {
        Some(v) => if trim(v@).len() > 0 {
            Some(trim(v@))
        } else {
            None
        },
        None => None,
    }
}

/// The trimmed value, unless it is missing or blank.
pub fn non_empty_opt(value: &Option<String>) -> (r: Option<String>)
    ensures
        match r {
            Some(s) => non_empty_value(*value) == Some(s@),
            None => non_empty_value(*value) is None,
        },
{
    match value {
        Some(v) => {
            let c = chars_of(v.as_str());
            let t = trimmed(c.as_slice());
            if t.len() == 0 {
                None
            } else {
                Some(string_from_chars(t.as_slice()))
            }
        },
        None => None,
    }
}

/// A page whose type is `FrontCover` (in any ASCII case).
pub open spec fn is_front_cover(p: ComicPage) -> bool {
    match p.kind {
        Some(k) => eq_ignore_ascii_case(k@, "FrontCover"@),
        None => false,
    }
}

/// The image index of the first front-cover page (`None` when there is
/// none, or when that page names no image).
pub open spec fn front_cover_of(pages: Seq<ComicPage>) -> Option<u32>
    decreases pages.len(),
{
    if pages.len() == 0 {
        None
    } else if is_front_cover(pages[0]) {
        pages[0].image
    } else {
        front_cover_of(pages.drop_first())
    }
}

/// The front cover is named by the earliest `FrontCover` page: if page `i`
/// is one and no page before it is, the cover index is page `i`'s image
/// (`None` when it names none); with no such page there is none.
pub proof fn lemma_front_cover_is_earliest(pages: Seq<ComicPage>)
    ensures
        forall|i: int|
            0 <= i < pages.len() && is_front_cover(#[trigger] pages[i]) && (forall|j: int|
                0 <= j < i ==> !is_front_cover(#[trigger] pages[j])) ==> front_cover_of(pages) == pages[i].image,
        (forall|j: int| 0 <= j < pages.len() ==> !is_front_cover(#[trigger] pages[j])) ==> front_cover_of(pages)
            is None,
    decreases pages.len(),
{
    if pages.len() > 0 {
        let rest = pages.drop_first();
        lemma_front_cover_is_earliest(rest);
        assert forall|i: int|
            0 <= i < pages.len() && is_front_cover(#[trigger] pages[i]) && (forall|j: int|
                0 <= j < i ==> !is_front_cover(#[trigger] pages[j])) implies front_cover_of(pages)
            == pages[i].image by {
            if i > 0 {
                assert(!is_front_cover(pages[0]));
                assert(rest[i - 1] == pages[i]);
                assert forall|j: int| 0 <= j < i - 1 implies !is_front_cover(#[trigger] rest[j]) by {
                    assert(rest[j] == pages[j + 1]);
                }
            }
        }
        if forall|j: int| 0 <= j < pages.len() ==> !is_front_cover(#[trigger] pages[j]) {
            assert(!is_front_cover(pages[0]));
            assert forall|j: int| 0 <= j < rest.len() implies !is_front_cover(#[trigger] rest[j]) by {
                assert(rest[j] == pages[j + 1]);
            }
        }
    }
}

/// The image index that `ComicInfo.xml` marks as the front cover.
pub open spec fn front_cover_spec(info: ComicInfo) -> Option<u32> {
    match info.pages {
        Some(p) => front_cover_of(p.page@),
        None => None,
    }
}

/// The `Image` index (into the sorted page list) of the first page whose
/// `Type` is `FrontCover`, if any.
pub fn front_cover_index(info: &ComicInfo) -> (r: Option<u32>)
    ensures
        r == front_cover_spec(*info),
{
    let pages = match &info.pages {
        Some(p) => &p.page,
        None => return None,
    };
    let front = chars_of("FrontCover");
    let mut i: usize = 0;
    assert(pages@.subrange(0, pages@.len() as int) =~= pages@);
    while i < pages.len()
        invariant
            i <= pages@.len(),
            front@ == "FrontCover"@,
            front_cover_spec(*info) == front_cover_of(pages@.subrange(i as int, pages@.len() as int)),
            info.pages matches Some(p) && p.page@ == pages@,
        decreases pages@.len() - i,
    {
        let page = &pages[i];
        let is_front = match &page.kind {
            Some(k) => {
                let kc = chars_of(k.as_str());
                chars_eq_ignore_ascii_case(kc.as_slice(), front.as_slice())
            },
            None => false,
        };
        assert(pages@.subrange(i as int, pages@.len() as int).drop_first() =~= pages@.subrange(
            i + 1,
            pages@.len() as int,
        ));
        if is_front {
            return page.image;
        }
        i = i + 1;
    }
    None
}

/// The image extensions a comic page may have (matched ignoring ASCII case).
pub open spec fn is_image_extension(e: Seq<char>) -> bool {
    ||| eq_ignore_ascii_case(e, "jpg"@)
    ||| eq_ignore_ascii_case(e, "jpeg"@)
    ||| eq_ignore_ascii_case(e, "png"@)
    ||| eq_ignore_ascii_case(e, "webp"@)
    ||| eq_ignore_ascii_case(e, "gif"@)
}

/// An image page of the archive.
pub struct ImageEntry {
    /// Its position in the archive.
    pub zip_index: usize,
    /// Its path inside the archive.
    pub path: String,
    /// Its extension in lower case.
    pub ext: String,
}

/// An image page as plain values.
pub ghost struct ImageModel {
    pub zip_index: int,
    pub path: Seq<char>,
    pub ext: Seq<char>,
}

impl View for ImageEntry {
    type V = ImageModel;

    open spec fn view(&self) -> ImageModel {
        ImageModel { zip_index: self.zip_index as int, path: self.path@, ext: self.ext@ }
    }
}

/// The image page (if any) that archive entry number `i` is.
pub open spec fn image_of(e: ArchiveEntry, i: int) -> Option<ImageModel> {
    if !e.is_file {
        None
    } else {
        match e.enclosed_name {
            Some(n) => match extension(n@) {
                Some(x) => if is_image_extension(x) {
                    Some(ImageModel { zip_index: i, path: n@, ext: ascii_lowercase(x) })
                } else {
                    None
                },
                None => None,
            },
            None => None,
        }
    }
}

/// The image pages of the first `n` entries, in archive order.
pub open spec fn images_in(entries: Seq<ArchiveEntry>, n: int) -> Seq<ImageModel>
    decreases n,
{
    if n <= 0 {
        Seq::empty()
    } else {
        match image_of(entries[n - 1], n - 1) {
            Some(m) => images_in(entries, n - 1).push(m),
            None => images_in(entries, n - 1),
        }
    }
}

/// The views of a sequence of image entries.
pub open spec fn image_views(v: Seq<ImageEntry>) -> Seq<ImageModel> {
    v.map_values(|e: ImageEntry| e@)
}

/// The image pages of the archive, in archive order.
pub fn collect_images(entries: &[ArchiveEntry]) -> (r: Vec<ImageEntry>)
    ensures
        image_views(r@) == images_in(entries@, entries@.len() as int),
{
    let mut images: Vec<ImageEntry> = Vec::new();
    let mut i: usize = 0;
    while i < entries.len()
        invariant
            i <= entries@.len(),
            image_views(images@) == images_in(entries@, i as int),
        decreases entries@.len() - i,
    {
        let e = &entries[i];
        if e.is_file {
            if let Some(name) = &e.enclosed_name {
                let nc = chars_of(name.as_str());
                if let Some(x) = extension_from(nc.as_slice()) {
                    let jpg = chars_of("jpg");
                    let jpeg = chars_of("jpeg");
                    let png = chars_of("png");
                    let webp = chars_of("webp");
                    let gif = chars_of("gif");
                    let xs = x.as_slice();
                    if chars_eq_ignore_ascii_case(xs, jpg.as_slice()) || chars_eq_ignore_ascii_case(
                        xs,
                        jpeg.as_slice(),
                    ) || chars_eq_ignore_ascii_case(xs, png.as_slice())
                        || chars_eq_ignore_ascii_case(xs, webp.as_slice())
                        || chars_eq_ignore_ascii_case(xs, gif.as_slice()) {
                        let lower = to_ascii_lowercase(xs);
                        let ghost old_images = images@;
                        images.push(
                            ImageEntry {
                                zip_index: i,
                                path: string_from_chars(nc.as_slice()),
                                ext: string_from_chars(lower.as_slice()),
                            },
                        );
                        assert(image_views(images@) =~= image_views(old_images).push(
                            images@.last()@,
                        ));
                    }
                }
            }
        }
        i = i + 1;
    }
    images
}

/// Page `x` comes before page `y`: its path is naturally smaller, or the
/// paths are naturally equal and `x` comes first in the archive.
pub open spec fn model_before(x: ImageModel, y: ImageModel) -> bool {
    ||| natural_order(x.path, y.path) < 0
    ||| natural_order(x.path, y.path) == 0 && x.zip_index < y.zip_index
}

/// Every page comes before every later one.
pub open spec fn naturally_sorted(v: Seq<ImageEntry>) -> bool {
    forall|i: int, j: int| 0 <= i < j < v.len() ==> model_before(#[trigger] v[i]@, #[trigger] v[j]@)
}

/// The archive positions strictly increase along `v`.
pub open spec fn zips_increasing(v: Seq<ImageEntry>) -> bool {
    forall|i: int, j: int| 0 <= i < j < v.len() ==> #[trigger] v[i].zip_index < #[trigger] v[j].zip_index
}

/// Places `x`, which lies later in the archive than every sorted page,
/// after every page not greater than it; returns where it went.
fn insert_sorted(sorted: &mut Vec<ImageEntry>, x: ImageEntry) -> (pos: usize)
    requires
        naturally_sorted(old(sorted)@),
        forall|k: int| 0 <= k < old(sorted)@.len() ==> #[trigger] old(sorted)@[k].zip_index < x.zip_index,
    ensures
        pos <= old(sorted)@.len(),
        final(sorted)@ == old(sorted)@.insert(pos as int, x),
        naturally_sorted(final(sorted)@),
{
    let ghost before = sorted@;
    let mut j = sorted.len();
    while j > 0 && natural_sign(sorted[j - 1].path.as_str(), x.path.as_str()) > 0
        invariant
            j <= sorted@.len(),
            sorted@ == before,
            forall|k: int| j <= k < before.len() ==> natural_order(#[trigger] before[k].path@, x.path@) == 1,
        decreases j,
    {
        proof {
            lemma_natural_order_antisymmetric(before[j - 1].path@, x.path@);
        }
        j = j - 1;
    }
    let ghost xv = x@;
    sorted.insert(j, x);
    proof {
        let s = sorted@;
        assert(s[j as int]@ == xv);
        assert forall|p: int, q: int| 0 <= p < q < s.len() implies model_before(
            #[trigger] s[p]@,
            #[trigger] s[q]@,
        ) by {
            if q < j {
                assert(s[p] == before[p] && s[q] == before[q]);
            } else if q == j {
                assert(s[p] == before[p]);
                lemma_natural_order_antisymmetric(before[j - 1].path@, xv.path);
                if p < j - 1 {
                    assert(model_before(before[p]@, before[j - 1]@));
                    lemma_natural_order_transitive(before[p].path@, before[j - 1].path@, xv.path);
                }
            } else if p == j {
                assert(s[q] == before[q - 1]);
                lemma_natural_order_antisymmetric(before[q - 1].path@, xv.path);
            } else if p < j {
                assert(s[p] == before[p] && s[q] == before[q - 1]);
            } else {
                assert(s[p] == before[p - 1] && s[q] == before[q - 1]);
            }
        }
    }
    j
}

/// The pages in natural order of their paths; pages with naturally equal
/// paths keep their archive order.
fn sort_images(images: Vec<ImageEntry>) -> (r: Vec<ImageEntry>)
    requires
        zips_increasing(images@),
    ensures
        r@.to_multiset() == images@.to_multiset(),
        naturally_sorted(r@),
{
    broadcast use vstd::multiset::group_multiset_axioms;

    let mut sorted: Vec<ImageEntry> = Vec::new();
    let mut rest = images;
    let ghost orig = rest@;
    proof {
        assert(sorted@.to_multiset() =~= Multiset::<ImageEntry>::empty()) by {
            vstd::seq_lib::to_multiset_len(sorted@);
        }
        assert(sorted@.to_multiset().add(rest@.to_multiset()) =~= orig.to_multiset());
    }
    // Take the pages from the front so that equal paths keep archive order.
    while rest.len() > 0
        invariant
            sorted@.to_multiset().add(rest@.to_multiset()) == orig.to_multiset(),
            naturally_sorted(sorted@),
            zips_increasing(rest@),
            forall|k: int, m: int|
                0 <= k < sorted@.len() && 0 <= m < rest@.len() ==> #[trigger] sorted@[k].zip_index
                    < #[trigger] rest@[m].zip_index,
        decreases rest@.len(),
    {
        let ghost old_rest = rest@;
        let ghost old_sorted = sorted@;
        let x = rest.remove(0);
        proof {
            vstd::seq_lib::to_multiset_remove(old_rest, 0);
            vstd::seq_lib::to_multiset_contains(old_rest, x);
            assert(old_rest.contains(x)) by {
                assert(old_rest[0] == x);
            }
            assert forall|k: int| 0 <= k < old_sorted.len() implies #[trigger] old_sorted[k].zip_index
                < x.zip_index by {
                assert(old_rest[0] == x);
            }
        }
        let pos = insert_sorted(&mut sorted, x);
        proof {
            vstd::seq_lib::to_multiset_insert(old_sorted, pos as int, x);
            assert(sorted@.to_multiset().add(rest@.to_multiset()) =~= old_sorted.to_multiset().add(
                old_rest.to_multiset(),
            ));
            assert forall|i: int, j: int| 0 <= i < j < rest@.len() implies #[trigger] rest@[i].zip_index
                < #[trigger] rest@[j].zip_index by {
                assert(rest@[i] == old_rest[i + 1] && rest@[j] == old_rest[j + 1]);
            }
            assert forall|k: int, m: int|
                0 <= k < sorted@.len() && 0 <= m < rest@.len() implies #[trigger] sorted@[k].zip_index
                < #[trigger] rest@[m].zip_index by {
                assert(rest@[m] == old_rest[m + 1]);
                if k < pos {
                    assert(sorted@[k] == old_sorted[k]);
                } else if k == pos {
                    assert(sorted@[k] == old_rest[0]);
                } else {
                    assert(sorted@[k] == old_sorted[k - 1]);
                }
            }
        }
    }
    proof {
        assert(rest@.to_multiset() =~= Multiset::<ImageEntry>::empty()) by {
            vstd::seq_lib::to_multiset_len(rest@);
        }
        assert(sorted@.to_multiset().add(Multiset::empty()) =~= sorted@.to_multiset());
    }
    sorted
}

/// The image pages of the archive lie at strictly increasing positions
/// below `n`.
pub proof fn lemma_images_in_positions(entries: Seq<ArchiveEntry>, n: int)
    ensures
        forall|i: int, j: int|
            0 <= i < j < images_in(entries, n).len() ==> #[trigger] images_in(entries, n)[i].zip_index
                < #[trigger] images_in(entries, n)[j].zip_index,
        forall|i: int|
            0 <= i < images_in(entries, n).len() ==> 0 <= #[trigger] images_in(entries, n)[i].zip_index
                < n,
    decreases n,
{
    if n > 0 {
        lemma_images_in_positions(entries, n - 1);
        let prev = images_in(entries, n - 1);
        match image_of(entries[n - 1], n - 1) {
            Some(m) => {
                assert(m.zip_index == n - 1);
                assert(images_in(entries, n) == prev.push(m));
                assert forall|i: int, j: int|
                    0 <= i < j < images_in(entries, n).len() implies #[trigger] images_in(
                    entries,
                    n,
                )[i].zip_index < #[trigger] images_in(entries, n)[j].zip_index by {
                    assert(images_in(entries, n)[i] == prev[i]);
                    if j < prev.len() {
                        assert(images_in(entries, n)[j] == prev[j]);
                    }
                }
                assert forall|i: int| 0 <= i < images_in(entries, n).len() implies 0
                    <= #[trigger] images_in(entries, n)[i].zip_index < n by {
                    if i < prev.len() {
                        assert(images_in(entries, n)[i] == prev[i]);
                    }
                }
            },
            None => {},
        }
    }
}

/// The position in the sorted page list of the cover: the front cover
/// index when it is in range, else the first page.
pub open spec fn cover_position(front: Option<u32>, len: int) -> int {
    match front {
        Some(f) => if f < len {
            f as int
        } else {
            0
        },
        None => 0,
    }
}

/// The archive index and extension of the cover in a sorted page list.
pub open spec fn cover_in(sorted: Seq<ImageEntry>, front: Option<u32>) -> Option<(usize, Seq<char>)> {
    if sorted.len() == 0 {
        None
    } else {
        let c = cover_position(front, sorted.len() as int);
        Some((sorted[c].zip_index, sorted[c].ext@))
    }
}

/// The cover among naturally sorted pages.
pub fn pick_cover(sorted: &Vec<ImageEntry>, front: Option<u32>) -> (r: Option<(usize, String)>)
    ensures
        match r {
            Some((i, e)) => cover_in(sorted@, front) == Some((i, e@)),
            None => cover_in(sorted@, front) is None,
        },
{
    if sorted.len() == 0 {
        return None;
    }
    let mut chosen: usize = 0;
    if let Some(f) = front {
        if (f as usize) < sorted.len() {
            chosen = f as usize;
        }
    }
    let e = &sorted[chosen];
    Some((e.zip_index, string_from_chars(chars_of(e.ext.as_str()).as_slice())))
}

/// The first piece of a comma-separated list that is not blank, trimmed.
pub open spec fn first_listed(s: Seq<char>) -> Option<Seq<char>>
    decreases s.len(),
{
    match find_char(s, ',') {
        Some(k) => if 0 <= k < s.len() {
            if trim(s.subrange(0, k)).len() > 0 {
                Some(trim(s.subrange(0, k)))
            } else {
                first_listed(s.subrange(k + 1, s.len() as int))
            }
        } else {
            None
        },
        None => if trim(s).len() > 0 {
            Some(trim(s))
        } else {
            None
        },
    }
}

/// The author is the first writer listed: for a first entry without a
/// comma that is not blank, whatever follows the comma, it is that entry
/// trimmed; a single entry that is not blank is the author, trimmed; a blank
/// first entry is skipped.
pub proof fn lemma_first_listed(a: Seq<char>, rest: Seq<char>)
    requires
        !a.contains(','),
    ensures
        trim(a).len() > 0 ==> first_listed(a + seq![','] + rest) == Some(trim(a)),
        trim(a).len() == 0 ==> first_listed(a + seq![','] + rest) == first_listed(rest),
        first_listed(a) == (if trim(a).len() > 0 {
            Some(trim(a))
        } else {
            None
        }),
{
    crate::text::lemma_find_char_split(a, ',', rest);
    let s = a + seq![','] + rest;
    assert(s.subrange(0, a.len() as int) =~= a);
    assert(s.subrange(a.len() as int + 1, s.len() as int) =~= rest);
}

/// The first non-blank entry of a comma-separated list, trimmed.
fn first_listed_of(s: &[char]) -> (r: Option<String>)
    ensures
        opt_seq(r) == first_listed(s@),
{
    let mut pos: usize = 0;
    assert(s@.subrange(0, s@.len() as int) =~= s@);
    loop
        invariant
            pos <= s@.len(),
            first_listed(s@) == first_listed(s@.subrange(pos as int, s@.len() as int)),
        decreases s@.len() + 1 - pos,
    {
        let rest = slice_chars(s, pos, s.len());
        match find_char_pos(rest.as_slice(), ',') {
            Some(k) => {
                proof {
                    crate::text::lemma_find_char_from(rest@, ',', 0);
                }
                let piece = trimmed(slice_chars(rest.as_slice(), 0, k).as_slice());
                if piece.len() > 0 {
                    return Some(string_from_chars(piece.as_slice()));
                }
                assert(rest@.subrange(k + 1, rest@.len() as int) =~= s@.subrange(pos + k + 1, s@.len() as int));
                pos = pos + k + 1;
            },
            None => {
                let piece = trimmed(rest.as_slice());
                if piece.len() > 0 {
                    return Some(string_from_chars(piece.as_slice()));
                }
                return None;
            },
        }
    }
}

/// The book name from `ComicInfo.xml`: the title, else `Series #Number`
/// (or the series alone), else `fallback`.
pub open spec fn comic_name(info: ComicInfo, fallback: Option<Seq<char>>) -> Option<Seq<char>> {
    match non_empty_value(info.title) {
        Some(t) => Some(t),
        None => match non_empty_value(info.series) {
            Some(s) => match non_empty_value(info.number) {
                Some(n) => Some(s + " #"@ + n),
                None => Some(s),
            },
            None => fallback,
        },
    }
}

/// The value is missing, or only whitespace.
pub open spec fn blank(value: Option<String>) -> bool {
    value is None || trim(value->0@).len() == 0
}

/// The name a `ComicInfo.xml` gives: a title that is not blank wins,
/// trimmed, whatever series and number say; without one, a series that is
/// not blank gives `Series #Number` (both trimmed), or the series alone when
/// the number is missing or blank; with neither, the fallback.
pub proof fn lemma_comic_name_prefers_title(info: ComicInfo, fallback: Option<Seq<char>>)
    ensures
        !blank(info.title) ==> comic_name(info, fallback) == Some(trim(info.title->0@)),
        blank(info.title) && !blank(info.series) && !blank(info.number) ==> comic_name(info, fallback)
            == Some(trim(info.series->0@) + " #"@ + trim(info.number->0@)),
        blank(info.title) && !blank(info.series) && blank(info.number) ==> comic_name(info, fallback) == Some(
            trim(info.series->0@),
        ),
        blank(info.title) && blank(info.series) ==> comic_name(info, fallback) == fallback,
{
}

/// The author from `ComicInfo.xml`: the first writer listed.
pub open spec fn comic_author(info: ComicInfo) -> Option<Seq<char>> {
    match non_empty_value(info.writer) {
        Some(w) => first_listed(w),
        None => None,
    }
}

/// `m` with `key` set to `v` when `v` is present.
pub open spec fn insert_if(m: Map<Seq<char>, Seq<char>>, key: Seq<char>, v: Option<Seq<char>>) -> Map<
    Seq<char>,
    Seq<char>,
> {
    match v {
        Some(x) => m.insert(key, x),
        None => m,
    }
}

/// The extra fields from `ComicInfo.xml`: series, language and publisher.
pub open spec fn comic_extra(info: ComicInfo) -> Map<Seq<char>, Seq<char>> {
    let m1 = insert_if(Map::empty(), "series"@, non_empty_value(info.series));
    let m2 = insert_if(m1, "language"@, non_empty_value(info.language_iso));
    insert_if(m2, "publisher"@, non_empty_value(info.publisher))
}

/// Sets `key` when `value` is present.
fn insert_present(m: &mut MetadataMap, key: &str, value: Option<String>)
    ensures
        final(m)@ == insert_if(old(m)@, key@, opt_seq(value)),
{
    if let Some(v) = value {
        m.insert(String::from_str(key), v);
    }
}

/// Archive entry `e` is a file named `ComicInfo.xml` (in any ASCII case, in
/// any folder).
pub open spec fn is_comic_info(e: ArchiveEntry) -> bool {
    e.is_file && match e.enclosed_name {
        Some(n) => match file_name(n@) {
            Some(f) => eq_ignore_ascii_case(f, "ComicInfo.xml"@),
            None => false,
        },
        None => false,
    }
}

/// The position of the first `ComicInfo.xml` entry.
pub fn find_comic_info(entries: &[ArchiveEntry]) -> (r: Option<usize>)
    ensures
        match r {
            Some(i) => i < entries@.len() && is_comic_info(entries@[i as int]) && forall|j: int|
                0 <= j < i ==> !is_comic_info(#[trigger] entries@[j]),
            None => forall|j: int| 0 <= j < entries@.len() ==> !is_comic_info(#[trigger] entries@[j]),
        },
{
    let target = chars_of("ComicInfo.xml");
    let mut i: usize = 0;
    while i < entries.len()
        invariant
            i <= entries@.len(),
            target@ == "ComicInfo.xml"@,
            forall|j: int| 0 <= j < i ==> !is_comic_info(#[trigger] entries@[j]),
        decreases entries@.len() - i,
    {
        let e = &entries[i];
        if e.is_file {
            if let Some(n) = &e.enclosed_name {
                if let Some(f) = file_name_of(chars_of(n.as_str()).as_slice()) {
                    if chars_eq_ignore_ascii_case(f.as_slice(), target.as_slice()) {
                        return Some(i);
                    }
                }
            }
        }
        i = i + 1;
    }
    None
}

/// Indexer for comic book archives.
pub struct CbzIndexer;

impl FileIndexer for CbzIndexer {
    open spec fn handles(&self, filename: Seq<char>) -> bool {
        is_suffix(".cbz"@, filename)
    }

    open spec fn mime(&self) -> Seq<char> {
        "application/vnd.comicbook+zip"@
    }

    open spec fn content_type(&self) -> Seq<char> {
        "EBOK"@
    }

    fn can_handle(&self, filename: &str) -> (r: bool) {
        ends_with(filename, ".cbz")
    }

    fn mime_type(&self) -> (r: &'static str) {
        "application/vnd.comicbook+zip"
    }

    fn cde_type(&self) -> (r: &'static str) {
        "EBOK"
    }
}

impl CbzIndexer {
    /// Metadata of the comic at `full_path`, given its `ComicInfo.xml` if the
    /// archive has a readable one: the name falls back to the file stem.
    pub fn extract_metadata(&self, full_path: &str, info: Option<ComicInfo>) -> (r: Result<
        IndexMetadata,
        String,
    >)
        ensures
            r matches Ok(m) && m.icon is None && match info {
                None => opt_seq(m.name) == file_prefix(full_path@) && m.author is None && m.extra@
                    == Map::<Seq<char>, Seq<char>>::empty(),
                Some(i) => opt_seq(m.name) == comic_name(i, file_prefix(full_path@)) && opt_seq(
                    m.author,
                ) == comic_author(i) && m.extra@ == comic_extra(i),
            },
    {
        let path = chars_of(full_path);
        let filename_name = match file_prefix_of(path.as_slice()) {
            Some(v) => Some(string_from_chars(v.as_slice())),
            None => None,
        };
        let info = match info {
            Some(i) => i,
            None => {
                return Ok(IndexMetadata::new(filename_name, None, None));
            },
        };
        let title = non_empty_opt(&info.title);
        let series = non_empty_opt(&info.series);
        let number = non_empty_opt(&info.number);
        let name = match title {
            Some(t) => Some(t),
            None => match series {
                Some(s) => match number {
                    Some(n) => {
                        let mut out = concat(s.as_str(), " #");
                        out.append(n.as_str());
                        Some(out)
                    },
                    None => Some(s),
                },
                None => filename_name,
            },
        };
        let author = match non_empty_opt(&info.writer) {
            Some(w) => first_listed_of(chars_of(w.as_str()).as_slice()),
            None => None,
        };
        let mut extra = MetadataMap::new();
        insert_present(&mut extra, "series", non_empty_opt(&info.series));
        insert_present(&mut extra, "language", non_empty_opt(&info.language_iso));
        insert_present(&mut extra, "publisher", non_empty_opt(&info.publisher));
        Ok(IndexMetadata { name, author, icon: None, extra })
    }

    /// The cover of the archive: its image pages sorted naturally, then the
    /// page `ComicInfo.xml` marks as front cover (when in range) or the first
    /// page. Returns the page's archive index and lower-case extension;
    /// `None` exactly when the archive has no image page.
    pub fn select_cover(&self, entries: &[ArchiveEntry], info: &Option<ComicInfo>) -> (r: Option<
        (usize, String),
    >)
        ensures
            r is None <==> images_in(entries@, entries@.len() as int).len() == 0,
            cover_position(front_of(*info), images_in(entries@, entries@.len() as int).len() as int)
                == 0 ==> (r matches Some((i, e)) ==> exists|k: int|
                first_page(images_in(entries@, entries@.len() as int), k)
                    && #[trigger] images_in(entries@, entries@.len() as int)[k].zip_index == i
                    && images_in(entries@, entries@.len() as int)[k].ext == e@),
            exists|found: Seq<ImageEntry>, sorted: Seq<ImageEntry>|
                {
                    &&& image_views(found) == images_in(entries@, entries@.len() as int)
                    &&& sorted.to_multiset() == found.to_multiset()
                    &&& naturally_sorted(sorted)
                    &&& match r {
                        Some((i, e)) => cover_in(sorted, front_of(*info)) == Some((i, e@)),
                        None => cover_in(sorted, front_of(*info)) is None,
                    }
                },
    {
        let images = collect_images(entries);
        let ghost found = images@;
        let ghost pages = images_in(entries@, entries@.len() as int);
        proof {
            lemma_images_in_positions(entries@, entries@.len() as int);
            assert forall|i: int, j: int| 0 <= i < j < found.len() implies #[trigger] found[i].zip_index
                < #[trigger] found[j].zip_index by {
                assert(image_views(found)[i] == found[i]@);
                assert(image_views(found)[j] == found[j]@);
                assert(pages[i].zip_index == found[i].zip_index);
                assert(pages[j].zip_index == found[j].zip_index);
            }
        }
        let sorted = sort_images(images);
        let front = match info {
            Some(c) => front_cover_index(c),
            None => None,
        };
        let r = pick_cover(&sorted, front);
        proof {
            vstd::seq_lib::to_multiset_len(sorted@);
            vstd::seq_lib::to_multiset_len(found);
            assert(image_views(found).len() == found.len());
            if sorted@.len() > 0 && cover_position(front, pages.len() as int) == 0 {
                lemma_first_page(found, sorted@, pages);
                let k = choose|k: int| first_page(pages, k) && #[trigger] pages[k] == sorted@[0]@;
                assert(pages[k].zip_index == sorted@[0].zip_index);
                assert(pages[k].ext == sorted@[0].ext@);
            }
        }
        r
    }
}

/// The front cover index `ComicInfo.xml` gives, if any.
pub open spec fn front_of(info: Option<ComicInfo>) -> Option<u32> {
    match info {
        Some(c) => front_cover_spec(c),
        None => None,
    }
}

/// Page `k` comes before every other page.
pub open spec fn first_page(pages: Seq<ImageModel>, k: int) -> bool {
    &&& 0 <= k < pages.len()
    &&& forall|j: int| 0 <= j < pages.len() && j != k ==> model_before(pages[k], #[trigger] pages[j])
}

/// The first of the sorted pages is the first page of the archive's pages.
proof fn lemma_first_page(found: Seq<ImageEntry>, sorted: Seq<ImageEntry>, pages: Seq<ImageModel>)
    requires
        image_views(found) == pages,
        zips_increasing(found),
        sorted.to_multiset() == found.to_multiset(),
        naturally_sorted(sorted),
        sorted.len() > 0,
    ensures
        exists|k: int| first_page(pages, k) && #[trigger] pages[k] == sorted[0]@,
{
    broadcast use vstd::seq_lib::to_multiset_contains;

    assert(sorted.contains(sorted[0]));
    assert(sorted.to_multiset().count(sorted[0]) > 0);
    assert(found.contains(sorted[0]));
    let k = choose|k: int| 0 <= k < found.len() && found[k] == sorted[0];
    assert(pages[k] == found[k]@);
    assert forall|j: int| 0 <= j < pages.len() && j != k implies model_before(
        pages[k],
        #[trigger] pages[j],
    ) by {
        assert(pages[j] == found[j]@);
        assert(found.contains(found[j]));
        assert(found.to_multiset().count(found[j]) > 0);
        assert(sorted.contains(found[j]));
        let m = choose|m: int| 0 <= m < sorted.len() && sorted[m] == found[j];
        if m == 0 {
            if j < k {
                assert(found[j].zip_index < found[k].zip_index);
            } else {
                assert(found[k].zip_index < found[j].zip_index);
            }
        } else {
            assert(model_before(sorted[0]@, sorted[m]@));
        }
    }
    assert(first_page(pages, k));
}

} // verus!
