//! The text that an address is written as denotes that address: proved for
//! every address from the definitions of reading and writing.

use crate::ipaddr::{
    address_of, all_digits, colon_groups, colon_text, decimal, digit_char, digit_of, dotted_quad,
    double_colon, field_end, fields, fields_from, from_groups, group, hex_groups, hexadecimal,
    is_mapped, longest_zero_run, number, octet, quad_groups, quad_text, six_groups, six_text,
    zero_groups, zero_run, IpAddress,
};
use vstd::prelude::*;

verus! {

/// Each of the sixteen digits has its value, in base 16 and, below ten, in
/// base 10; none is a dot or a colon.
pub proof fn lemma_digit_char(d: int)
    requires
        0 <= d < 16,
    ensures
        digit_of(digit_char(d), 16) == Some(d),
        d < 10 ==> digit_of(digit_char(d), 10) == Some(d),
        digit_char(d) != '.',
        digit_char(d) != ':',
        d != 0 ==> digit_char(d) != '0',
{
    reveal_strlit("0123456789abcdef");
    let all = "0123456789abcdef"@;
    assert(all[0] == '0' && all[1] == '1' && all[2] == '2' && all[3] == '3');
    assert(all[4] == '4' && all[5] == '5' && all[6] == '6' && all[7] == '7');
    assert(all[8] == '8' && all[9] == '9' && all[10] == 'a' && all[11] == 'b');
    assert(all[12] == 'c' && all[13] == 'd' && all[14] == 'e' && all[15] == 'f');
}

/// A number in decimal holds decimal digits only, starts with no zero
/// unless it is one digit, and denotes the number.
pub proof fn lemma_decimal(n: int)
    requires
        0 <= n,
    ensures
        decimal(n).len() >= 1,
        n < 10 ==> decimal(n).len() == 1,
        10 <= n < 100 ==> decimal(n).len() == 2,
        100 <= n < 1000 ==> decimal(n).len() == 3,
        all_digits(decimal(n), 10),
        n >= 10 ==> decimal(n)[0] != '0',
        number(decimal(n), 10) == n,
        forall|i: int| 0 <= i < decimal(n).len() ==> #[trigger] decimal(n)[i] != ':',
    decreases n,
{
    let t = decimal(n);
    if n < 10 {
        lemma_digit_char(n);
        assert(t.drop_last() =~= Seq::<char>::empty());
        assert(number(t.drop_last(), 10) == 0);
    } else {
        lemma_decimal(n / 10);
        lemma_digit_char(n % 10);
        lemma_digit_char((n / 10) % 10);
        let head = decimal(n / 10);
        assert(t.drop_last() =~= head);
        assert(t.last() == digit_char(n % 10));
        assert(t[0] == head[0]);
        if n / 10 < 10 {
            assert(head[0] == digit_char(n / 10));
            lemma_digit_char(n / 10);
        }
        assert forall|i: int| 0 <= i < t.len() implies digit_of(#[trigger] t[i], 10) is Some by {
            if i < head.len() {
                assert(t[i] == head[i]);
            }
        }
        assert forall|i: int| 0 <= i < t.len() implies #[trigger] t[i] != ':' by {
            if i < head.len() {
                assert(t[i] == head[i]);
            }
        }
    }
}

/// A number in hexadecimal holds hexadecimal digits only and denotes the
/// number.
pub proof fn lemma_hexadecimal(n: int)
    requires
        0 <= n,
    ensures
        hexadecimal(n).len() >= 1,
        n < 16 ==> hexadecimal(n).len() == 1,
        16 <= n < 256 ==> hexadecimal(n).len() == 2,
        256 <= n < 4096 ==> hexadecimal(n).len() == 3,
        4096 <= n < 65536 ==> hexadecimal(n).len() == 4,
        all_digits(hexadecimal(n), 16),
        number(hexadecimal(n), 16) == n,
        forall|i: int| 0 <= i < hexadecimal(n).len() ==> #[trigger] hexadecimal(n)[i] != ':',
    decreases n,
{
    let t = hexadecimal(n);
    if n < 16 {
        lemma_digit_char(n);
        assert(t.drop_last() =~= Seq::<char>::empty());
        assert(number(t.drop_last(), 16) == 0);
    } else {
        lemma_hexadecimal(n / 16);
        lemma_digit_char(n % 16);
        let head = hexadecimal(n / 16);
        assert(t.drop_last() =~= head);
        assert(t.last() == digit_char(n % 16));
        assert forall|i: int| 0 <= i < t.len() implies digit_of(#[trigger] t[i], 16) is Some by {
            if i < head.len() {
                assert(t[i] == head[i]);
            }
        }
        assert forall|i: int| 0 <= i < t.len() implies #[trigger] t[i] != ':' by {
            if i < head.len() {
                assert(t[i] == head[i]);
            }
        }
    }
}

/// An octet in decimal denotes itself.
pub proof fn lemma_octet_of_decimal(n: u8)
    ensures
        octet(decimal(n as int)) == Some(n),
        forall|i: int|
            0 <= i < decimal(n as int).len() ==> #[trigger] decimal(n as int)[i] != '.'
                && decimal(n as int)[i] != ':',
{
    lemma_decimal(n as int);
    let t = decimal(n as int);
    assert forall|i: int| 0 <= i < t.len() implies #[trigger] t[i] != '.' && t[i] != ':' by {
        assert(digit_of(t[i], 10) is Some);
    }
}

/// A group in hexadecimal denotes itself.
pub proof fn lemma_group_of_hexadecimal(n: u16)
    ensures
        group(hexadecimal(n as int)) == Some(n),
        hexadecimal(n as int).len() >= 1,
        forall|i: int|
            0 <= i < hexadecimal(n as int).len() ==> #[trigger] hexadecimal(n as int)[i] != ':',
{
    lemma_hexadecimal(n as int);
}

/// The scan for a separator passes what stands before the text it scans.
proof fn lemma_field_end_shift(p: Seq<char>, r: Seq<char>, j: int, sep: char)
    requires
        0 <= j <= r.len(),
    ensures
        field_end(p + r, p.len() + j, sep) == p.len() + field_end(r, j, sep),
        j <= field_end(r, j, sep) <= r.len(),
        field_end(r, j, sep) < r.len() ==> r[field_end(r, j, sep)] == sep,
        forall|k: int| j <= k < field_end(r, j, sep) ==> #[trigger] r[k] != sep,
    decreases r.len() - j,
{
    if j < r.len() {
        assert((p + r)[p.len() + j] == r[j]);
        if r[j] != sep {
            lemma_field_end_shift(p, r, j + 1, sep);
        }
    }
}

/// The fields of a text behind a prefix are the fields of the text alone.
proof fn lemma_fields_shift(p: Seq<char>, r: Seq<char>, j: int, sep: char)
    requires
        0 <= j <= r.len(),
    ensures
        fields_from(p + r, p.len() + j, sep) == fields_from(r, j, sep),
    decreases r.len() - j,
{
    lemma_field_end_shift(p, r, j, sep);
    let e = field_end(r, j, sep);
    let s = p + r;
    if e < r.len() {
        lemma_fields_shift(p, r, e + 1, sep);
        assert(s.subrange(p.len() + j, p.len() + e) =~= r.subrange(j, e));
    } else {
        assert(s.subrange(p.len() + j, s.len() as int) =~= r.subrange(j, r.len() as int));
    }
}

/// A text without the separator is its own single field.
pub proof fn lemma_one_field(x: Seq<char>, sep: char)
    requires
        forall|i: int| 0 <= i < x.len() ==> #[trigger] x[i] != sep,
    ensures
        fields(x, sep) == seq![x],
{
    lemma_field_end_shift(Seq::<char>::empty(), x, 0, sep);
    let e = field_end(x, 0, sep);
    if e < x.len() {
        assert(x[e] == sep);
    }
    assert(x.subrange(0, x.len() as int) =~= x);
}

/// The scan for a separator in a text goes on as it did when a separator
/// and more are put behind the text.
proof fn lemma_field_end_extended(u: Seq<char>, x: Seq<char>, i: int, sep: char)
    requires
        0 <= i <= u.len(),
    ensures
        field_end(u + seq![sep] + x, i, sep) == field_end(u, i, sep),
    decreases u.len() - i,
{
    let s = u + seq![sep] + x;
    if i < u.len() {
        assert(s[i] == u[i]);
        if u[i] != sep {
            lemma_field_end_extended(u, x, i + 1, sep);
        }
    } else {
        assert(s[i] == sep);
    }
}

/// A separator and a last field behind a text add that field to its fields.
proof fn lemma_fields_extended(u: Seq<char>, x: Seq<char>, i: int, sep: char)
    requires
        0 <= i <= u.len(),
        forall|k: int| 0 <= k < x.len() ==> #[trigger] x[k] != sep,
    ensures
        fields_from(u + seq![sep] + x, i, sep) == fields_from(u, i, sep) + seq![x],
    decreases u.len() - i,
{
    let s = u + seq![sep] + x;
    lemma_field_end_extended(u, x, i, sep);
    lemma_field_end_shift(Seq::<char>::empty(), u, i, sep);
    let e = field_end(u, i, sep);
    if e < u.len() {
        lemma_fields_extended(u, x, e + 1, sep);
        assert(s.subrange(i, e) =~= u.subrange(i, e));
        assert(seq![u.subrange(i, e)] + (fields_from(u, e + 1, sep) + seq![x]) =~= (seq![
            u.subrange(i, e),
        ] + fields_from(u, e + 1, sep)) + seq![x]);
    } else {
        assert(s.subrange(i, e) =~= u.subrange(i, u.len() as int));
        lemma_fields_shift(u + seq![sep], x, 0, sep);
        lemma_one_field(x, sep);
        assert(s =~= (u + seq![sep]) + x);
        assert((u + seq![sep]).len() + 0 == e + 1);
    }
}

/// The fields of a text, a separator and a last field without separator.
pub proof fn lemma_last_field(u: Seq<char>, x: Seq<char>, sep: char)
    requires
        forall|k: int| 0 <= k < x.len() ==> #[trigger] x[k] != sep,
    ensures
        fields(u + seq![sep] + x, sep) == fields(u, sep) + seq![x],
{
    lemma_fields_extended(u, x, 0, sep);
}

/// Four octets written as a dotted quad are read as those four octets, and
/// the text holds no colon.
pub proof fn law_quad_is_read_back(a: u8, b: u8, c: u8, d: u8)
    ensures
        dotted_quad(quad_text(a, b, c, d)) == Some((a, b, c, d)),
        forall|i: int|
            0 <= i < quad_text(a, b, c, d).len() ==> #[trigger] quad_text(a, b, c, d)[i] != ':',
{
    reveal_strlit(".");
    assert("."@ =~= seq!['.']);
    lemma_octet_of_decimal(a);
    lemma_octet_of_decimal(b);
    lemma_octet_of_decimal(c);
    lemma_octet_of_decimal(d);
    let ta = decimal(a as int);
    let tb = decimal(b as int);
    let tc = decimal(c as int);
    let td = decimal(d as int);
    lemma_one_field(ta, '.');
    lemma_last_field(ta, tb, '.');
    lemma_last_field(ta + seq!['.'] + tb, tc, '.');
    lemma_last_field(ta + seq!['.'] + tb + seq!['.'] + tc, td, '.');
    let f = fields(quad_text(a, b, c, d), '.');
    assert(f =~= seq![ta, tb, tc, td]);
    let t = quad_text(a, b, c, d);
    assert forall|i: int| 0 <= i < t.len() implies #[trigger] t[i] != ':' by {
        let la = ta.len();
        let lb = tb.len();
        let lc = tc.len();
        if i < la {
            assert(t[i] == ta[i]);
        } else if i == la {
        } else if i < la + 1 + lb {
            assert(t[i] == tb[i - la - 1]);
        } else if i == la + 1 + lb {
        } else if i < la + 1 + lb + 1 + lc {
            assert(t[i] == tc[i - la - lb - 2]);
        } else if i == la + 1 + lb + 1 + lc {
        } else {
            assert(t[i] == td[i - la - lb - lc - 3]);
        }
    }
}

/// Whether no two colons stand side by side in `t`, and none at either end.
pub open spec fn sparse_colons(t: Seq<char>) -> bool {
    &&& forall|i: int| 0 <= i < t.len() - 1 ==> !(#[trigger] t[i] == ':' && t[i + 1] == ':')
    &&& t.len() > 0 ==> t[0] != ':' && t[t.len() - 1] != ':'
}

/// Groups written with colons between them: the text is not empty, its
/// colons stand alone and inside, its fields are the groups in hexadecimal,
/// and with two groups or more it holds a colon.
proof fn lemma_colon_text(g: Seq<u16>)
    requires
        g.len() >= 1,
    ensures
        colon_text(g).len() >= 1,
        sparse_colons(colon_text(g)),
        fields(colon_text(g), ':') == Seq::new(g.len(), |i: int| hexadecimal(g[i] as int)),
        g.len() >= 2 ==> exists|i: int| 0 <= i < colon_text(g).len() && colon_text(g)[i] == ':',
    decreases g.len(),
{
    let t = colon_text(g);
    if g.len() == 1 {
        lemma_group_of_hexadecimal(g[0]);
        lemma_one_field(hexadecimal(g[0] as int), ':');
        assert(fields(t, ':') =~= Seq::new(g.len(), |i: int| hexadecimal(g[i] as int)));
    } else {
        reveal_strlit(":");
        assert(":"@ =~= seq![':']);
        let front = g.drop_last();
        let u = colon_text(front);
        let x = hexadecimal(g.last() as int);
        lemma_colon_text(front);
        lemma_group_of_hexadecimal(g.last());
        lemma_last_field(u, x, ':');
        assert(t == u + seq![':'] + x);
        assert(fields(t, ':') =~= Seq::new(g.len(), |i: int| hexadecimal(g[i] as int))) by {
            let want = Seq::new(g.len(), |i: int| hexadecimal(g[i] as int));
            let have = fields(u, ':') + seq![x];
            assert(have.len() == want.len());
            assert forall|i: int| 0 <= i < want.len() implies have[i] == want[i] by {
                if i < front.len() {
                    assert(front[i] == g[i]);
                }
            }
        }
        assert(t[u.len() as int] == ':');
        assert forall|i: int| 0 <= i < t.len() - 1 implies !(#[trigger] t[i] == ':' && t[i + 1]
            == ':') by {
            if i + 1 < u.len() {
                assert(t[i] == u[i] && t[i + 1] == u[i + 1]);
            } else if i + 1 == u.len() {
                assert(t[i] == u[u.len() - 1]);
            } else if i == u.len() {
                assert(t[i + 1] == x[0]);
            } else {
                assert(t[i] == x[i - u.len() - 1]);
            }
        }
        assert(t[0] == u[0]);
        assert(t[t.len() - 1] == x[x.len() - 1]);
    }
}

/// Groups written with colons between them are read as those groups.
proof fn lemma_colon_groups(g: Seq<u16>, quad: bool)
    ensures
        colon_groups(colon_text(g), quad) == Some(g),
{
    if g.len() == 0 {
        assert(g =~= Seq::<u16>::empty());
    } else {
        lemma_colon_text(g);
        let f = fields(colon_text(g), ':');
        assert forall|i: int| 0 <= i < f.len() implies group(#[trigger] f[i]) == Some(g[i]) by {
            lemma_group_of_hexadecimal(g[i]);
        }
        assert(hex_groups(f)->0 =~= g);
    }
}

/// The scan for a double colon finds the first one.
proof fn lemma_double_colon_found(t: Seq<char>, j: int, p: int)
    requires
        0 <= j <= p,
        p + 1 < t.len(),
        t[p] == ':' && t[p + 1] == ':',
        forall|i: int| j <= i < p ==> !(#[trigger] t[i] == ':' && t[i + 1] == ':'),
    ensures
        double_colon(t, j) == p,
    decreases p - j,
{
    if j < p {
        assert(!(t[j] == ':' && t[j + 1] == ':'));
        lemma_double_colon_found(t, j + 1, p);
    }
}

/// The scan for a double colon ends at the end where there is none.
proof fn lemma_double_colon_absent(t: Seq<char>, j: int)
    requires
        0 <= j,
        forall|i: int| j <= i < t.len() - 1 ==> !(#[trigger] t[i] == ':' && t[i + 1] == ':'),
    ensures
        double_colon(t, j) == t.len(),
    decreases t.len() - j,
{
    if j + 1 < t.len() {
        assert(!(t[j] == ':' && t[j + 1] == ':'));
        lemma_double_colon_absent(t, j + 1);
    }
}

/// A run of zero groups stays within the groups and holds zeros only.
proof fn lemma_zero_run(g: Seq<u16>, i: int)
    requires
        0 <= i <= g.len(),
    ensures
        0 <= zero_run(g, i) <= g.len() - i,
        forall|k: int| i <= k < i + zero_run(g, i) ==> #[trigger] g[k] == 0,
    decreases g.len() - i,
{
    if i < g.len() && g[i] == 0 {
        lemma_zero_run(g, i + 1);
    }
}

/// The longest run of zero groups is a run of zero groups.
proof fn lemma_longest_zero_run(g: Seq<u16>, i: int)
    requires
        0 <= i <= g.len(),
    ensures
        longest_zero_run(g, i).1 >= 0,
        longest_zero_run(g, i).1 > 0 ==> i <= longest_zero_run(g, i).0 < g.len() && zero_run(
            g,
            longest_zero_run(g, i).0,
        ) == longest_zero_run(g, i).1,
    decreases g.len() - i,
{
    if i < g.len() {
        lemma_longest_zero_run(g, i + 1);
    }
}

/// A character that is no separator stands in one of the fields.
proof fn lemma_field_holds(s: Seq<char>, i: int, at: int, sep: char)
    requires
        0 <= i <= at < s.len(),
        s[at] != sep,
    ensures
        exists|k: int|
            0 <= k < fields_from(s, i, sep).len() && (#[trigger] fields_from(s, i, sep)[k]).contains(
                s[at],
            ),
    decreases s.len() - i,
{
    lemma_field_end_shift(Seq::<char>::empty(), s, i, sep);
    let e = field_end(s, i, sep);
    let f = fields_from(s, i, sep);
    if at < e {
        let first = if e < s.len() {
            s.subrange(i, e)
        } else {
            s.subrange(i, s.len() as int)
        };
        assert(f[0] == first);
        assert(first[at - i] == s[at]);
        assert(f[0].contains(s[at]));
    } else {
        assert(e < s.len());
        assert(at != e);
        lemma_field_holds(s, e + 1, at, sep);
        let rest = fields_from(s, e + 1, sep);
        let k = choose|k: int| 0 <= k < rest.len() && (#[trigger] rest[k]).contains(s[at]);
        assert(f[k + 1] == rest[k]);
        assert(f[k + 1].contains(s[at]));
    }
}

/// A text with a colon in it is no dotted quad.
proof fn lemma_no_quad_with_colon(s: Seq<char>, at: int)
    requires
        0 <= at < s.len(),
        s[at] == ':',
    ensures
        dotted_quad(s) is None,
{
    lemma_field_holds(s, 0, at, '.');
    let f = fields(s, '.');
    let k = choose|k: int| 0 <= k < f.len() && (#[trigger] f[k]).contains(':');
    let j = choose|j: int| 0 <= j < f[k].len() && f[k][j] == ':';
    assert(digit_of(f[k][j], 10) is None);
    assert(!all_digits(f[k], 10));
    assert(octet(f[k]) is None);
}

/// Four times the digit `f` denote the group of sixteen ones.
proof fn lemma_mark_group()
    ensures
        group(seq!['f', 'f', 'f', 'f']) == Some(0xffffu16),
{
    let x = seq!['f', 'f', 'f', 'f'];
    reveal_with_fuel(number, 6);
    assert(x.drop_last() =~= seq!['f', 'f', 'f']);
    assert(x.drop_last().drop_last() =~= seq!['f', 'f']);
    assert(x.drop_last().drop_last().drop_last() =~= seq!['f']);
    assert(x.drop_last().drop_last().drop_last().drop_last() =~= Seq::<char>::empty());
    assert(digit_of('f', 16) == Some(15int));
    assert(number(x, 16) == 65535);
}

/// The text of a mapped address is read as its groups.
proof fn lemma_mapped_is_read_back(g: Seq<u16>)
    requires
        g.len() == 8,
        is_mapped(g),
    ensures
        six_groups(six_text(g)) == Some(g),
        dotted_quad(six_text(g)) is None,
{
    reveal_strlit("::ffff:");
    reveal_strlit(".");
    let mark = "::ffff:"@;
    assert(mark =~= seq![':', ':', 'f', 'f', 'f', 'f', ':']);
    let a = (g[6] / 256) as u8;
    let b = (g[6] % 256) as u8;
    let c = (g[7] / 256) as u8;
    let d = (g[7] % 256) as u8;
    let q = quad_text(a, b, c, d);
    let t = six_text(g);
    assert(t == mark + q);
    law_quad_is_read_back(a, b, c, d);
    assert(t[0] == ':' && t[1] == ':');
    lemma_no_quad_with_colon(t, 0);
    assert(double_colon(t, 0) == 0);
    let x = seq!['f', 'f', 'f', 'f'];
    let tail = t.subrange(2, t.len() as int);
    assert(tail =~= x + seq![':'] + q);
    assert(t.subrange(0, 0) =~= Seq::<char>::empty());
    lemma_one_field(x, ':');
    lemma_last_field(x, q, ':');
    let f = fields(tail, ':');
    assert(f =~= seq![x, q]);
    lemma_octet_of_decimal(a);
    let da = decimal(a as int);
    assert(q[da.len() as int] == '.');
    assert(digit_of(q[da.len() as int], 16) is None);
    assert(group(q) is None);
    assert(f[1] == q);
    assert(hex_groups(f) is None);
    lemma_mark_group();
    assert(f.drop_last() =~= seq![x]);
    assert(hex_groups(seq![x])->0 =~= seq![0xffffu16]);
    assert(f.last() == q);
    assert(quad_groups((a, b, c, d)) =~= seq![g[6], g[7]]);
    let read = colon_groups(tail, true);
    assert(read == Some(seq![0xffffu16] + seq![g[6], g[7]]));
    assert(Seq::<u16>::empty() + zero_groups(8 - 0 - 3) + (seq![0xffffu16] + seq![g[6], g[7]])
        =~= g);
}

/// The text of eight groups is read as those groups, and is no dotted quad.
pub proof fn law_six_is_read_back(g: Seq<u16>)
    requires
        g.len() == 8,
    ensures
        six_groups(six_text(g)) == Some(g),
        dotted_quad(six_text(g)) is None,
{
    let run = longest_zero_run(g, 0);
    let t = six_text(g);
    if is_mapped(g) {
        lemma_mapped_is_read_back(g);
    } else if run.1 > 1 {
        reveal_strlit("::");
        assert("::"@ =~= seq![':', ':']);
        lemma_longest_zero_run(g, 0);
        lemma_zero_run(g, run.0);
        let h = g.subrange(0, run.0);
        let r = g.subrange(run.0 + run.1, 8);
        let head = colon_text(h);
        let tail = colon_text(r);
        let p = head.len() as int;
        assert(t == head + seq![':', ':'] + tail);
        if h.len() > 0 {
            lemma_colon_text(h);
        }
        assert(t[p] == ':' && t[p + 1] == ':');
        assert forall|i: int| 0 <= i < p implies !(#[trigger] t[i] == ':' && t[i + 1] == ':') by {
            if i + 1 < p {
                assert(t[i] == head[i] && t[i + 1] == head[i + 1]);
            } else {
                assert(t[i] == head[p - 1]);
            }
        }
        lemma_double_colon_found(t, 0, p);
        lemma_no_quad_with_colon(t, p);
        assert(t.subrange(0, p) =~= head);
        assert(t.subrange(p + 2, t.len() as int) =~= tail);
        lemma_colon_groups(h, false);
        lemma_colon_groups(r, true);
        assert(h + zero_groups(8 - h.len() - r.len()) + r =~= g);
    } else {
        lemma_colon_text(g);
        lemma_double_colon_absent(t, 0);
        lemma_colon_groups(g, true);
        let at = choose|i: int| 0 <= i < t.len() && t[i] == ':';
        lemma_no_quad_with_colon(t, at);
    }
}

/// The text that an address is written as denotes that address.
pub proof fn law_address_is_read_back(ip: IpAddress)
    ensures
        address_of(ip.text()) == Some(ip),
{
    match ip {
        IpAddress::V4(a, b, c, d) => {
            law_quad_is_read_back(a, b, c, d);
        },
        IpAddress::V6(_, _, _, _, _, _, _, _) => {
            law_six_is_read_back(ip.groups());
        },
    }
}

} // verus!
