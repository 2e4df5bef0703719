//! Internet addresses, version 4 and version 6: their value, the texts that
//! denote one, and the text that one is written as.

use vstd::prelude::*;
use vstd::string::*;

verus! {

/// An address: four octets, or eight groups of sixteen bits.
#[derive(PartialEq, Eq, Structural, Debug, Clone, Copy)]
pub enum IpAddress {
    V4(u8, u8, u8, u8),
    V6(u16, u16, u16, u16, u16, u16, u16, u16),
}

/// The value of `c` as a digit in base `radix` (10 or 16, either case).
pub open spec fn digit_of(c: char, radix: int) -> Option<int> {
    let n = c as u32 as int;
    if 0x30 <= n <= 0x39 {
        Some(n - 0x30)
    } else if radix == 16 && 0x61 <= n <= 0x66 {
        Some(n - 0x61 + 10)
    } else if radix == 16 && 0x41 <= n <= 0x46 {
        Some(n - 0x41 + 10)
    } else {
        None
    }
}

/// Whether `t` holds digits of base `radix` only.
pub open spec fn all_digits(t: Seq<char>, radix: int) -> bool {
    forall|i: int| 0 <= i < t.len() ==> digit_of(#[trigger] t[i], radix) is Some
}

/// The number that `t` denotes in base `radix`, most significant digit first.
pub open spec fn number(t: Seq<char>, radix: int) -> int
    decreases t.len(),
{
    if t.len() == 0 {
        0
    } else {
        number(t.drop_last(), radix) * radix + match digit_of(t.last(), radix) {
            Some(d) => d,
            None => 0,
        }
    }
}

/// An octet in decimal: one to three digits, no zero in front of another
/// digit, at most 255.
pub open spec fn octet(t: Seq<char>) -> Option<u8> {
    if 1 <= t.len() <= 3 && all_digits(t, 10) && (t.len() == 1 || t[0] != '0') && number(t, 10)
        <= 255 {
        Some(number(t, 10) as u8)
    } else {
        None
    }
}

/// A group of sixteen bits in hexadecimal: one to four digits.
pub open spec fn group(t: Seq<char>) -> Option<u16> {
    if 1 <= t.len() <= 4 && all_digits(t, 16) {
        Some(number(t, 16) as u16)
    } else {
        None
    }
}

/// The first position from `i` on that holds `sep`, or the length.
pub open spec fn field_end(s: Seq<char>, i: int, sep: char) -> int
    decreases s.len() - i,
{
    if 0 <= i < s.len() && s[i] != sep {
        field_end(s, i + 1, sep)
    } else {
        i
    }
}

/// The pieces of `s[i..]` between the occurrences of `sep`.
pub open spec fn fields_from(s: Seq<char>, i: int, sep: char) -> Seq<Seq<char>>
    decreases s.len() - i,
{
    let e = field_end(s, i, sep);
    if 0 <= i <= e < s.len() {
        seq![s.subrange(i, e)] + fields_from(s, e + 1, sep)
    } else {
        seq![s.subrange(i, s.len() as int)]
    }
}

/// The pieces of `s` between the occurrences of `sep`: one more than there
/// are occurrences.
pub open spec fn fields(s: Seq<char>, sep: char) -> Seq<Seq<char>> {
    fields_from(s, 0, sep)
}

/// Four octets written in decimal with dots between them.
pub open spec fn dotted_quad(s: Seq<char>) -> Option<(u8, u8, u8, u8)> {
    let f = fields(s, '.');
    if f.len() == 4 && octet(f[0]) is Some && octet(f[1]) is Some && octet(f[2]) is Some && octet(
        f[3],
    ) is Some {
        Some((octet(f[0])->0, octet(f[1])->0, octet(f[2])->0, octet(f[3])->0))
    } else {
        None
    }
}

/// The groups that the texts of `f` denote, if each denotes one.
pub open spec fn hex_groups(f: Seq<Seq<char>>) -> Option<Seq<u16>> {
    if forall|i: int| 0 <= i < f.len() ==> group(#[trigger] f[i]) is Some {
        Some(Seq::new(f.len(), |i: int| group(f[i])->0))
    } else {
        None
    }
}

/// The two groups that hold four octets.
pub open spec fn quad_groups(q: (u8, u8, u8, u8)) -> Seq<u16> {
    seq![(q.0 * 256 + q.1) as u16, (q.2 * 256 + q.3) as u16]
}

/// The groups written in `s` with colons between them; none where `s` is
/// empty. With `quad`, a dotted quad may stand last, for two groups.
pub open spec fn colon_groups(s: Seq<char>, quad: bool) -> Option<Seq<u16>> {
    let f = fields(s, ':');
    if s.len() == 0 {
        Some(Seq::empty())
    } else if hex_groups(f) is Some {
        hex_groups(f)
    } else if quad && hex_groups(f.drop_last()) is Some && dotted_quad(f.last()) is Some {
        Some(hex_groups(f.drop_last())->0 + quad_groups(dotted_quad(f.last())->0))
    } else {
        None
    }
}

/// The first position from `i` on where two colons stand, or the length.
pub open spec fn double_colon(s: Seq<char>, i: int) -> int
    decreases s.len() - i,
{
    if 0 <= i && i + 1 < s.len() {
        if s[i] == ':' && s[i + 1] == ':' {
            i
        } else {
            double_colon(s, i + 1)
        }
    } else {
        s.len() as int
    }
}

/// `n` groups of zero.
pub open spec fn zero_groups(n: int) -> Seq<u16> {
    Seq::new(n as nat, |i: int| 0u16)
}

/// The eight groups of a version 6 address written as `s`: colon-separated
/// groups, where one double colon may stand for one or more groups of zero.
pub open spec fn six_groups(s: Seq<char>) -> Option<Seq<u16>> {
    let p = double_colon(s, 0);
    if p < s.len() {
        let head = colon_groups(s.subrange(0, p), false);
        let tail = colon_groups(s.subrange(p + 2, s.len() as int), true);
        if head is Some && tail is Some && head->0.len() + tail->0.len() <= 7 {
            Some(head->0 + zero_groups(8 - head->0.len() - tail->0.len()) + tail->0)
        } else {
            None
        }
    } else {
        let all = colon_groups(s, true);
        if all is Some && all->0.len() == 8 {
            all
        } else {
            None
        }
    }
}

/// The version 6 address of eight groups.
pub open spec fn from_groups(g: Seq<u16>) -> IpAddress {
    IpAddress::V6(g[0], g[1], g[2], g[3], g[4], g[5], g[6], g[7])
}

/// The address that the text `s` denotes, if it denotes one: a dotted quad,
/// else the colon form of version 6.
pub open spec fn address_of(s: Seq<char>) -> Option<IpAddress> {
    if dotted_quad(s) is Some {
        let q = dotted_quad(s)->0;
        Some(IpAddress::V4(q.0, q.1, q.2, q.3))
    } else if six_groups(s) is Some {
        Some(from_groups(six_groups(s)->0))
    } else {
        None
    }
}

/// The sixteen digits, by value.
pub open spec fn digit_char(d: int) -> char {
    "0123456789abcdef"@[d]
}

/// `n` in decimal, without zeros in front.
pub open spec fn decimal(n: int) -> Seq<char>
    decreases n,
{
    if n < 10 {
        seq![digit_char(n)]
    } else {
        decimal(n / 10) + seq![digit_char(n % 10)]
    }
}

/// `n` in hexadecimal, in lower case, without zeros in front.
pub open spec fn hexadecimal(n: int) -> Seq<char>
    decreases n,
{
    if n < 16 {
        seq![digit_char(n)]
    } else {
        hexadecimal(n / 16) + seq![digit_char(n % 16)]
    }
}

/// Four octets in decimal with dots between them.
pub open spec fn quad_text(a: u8, b: u8, c: u8, d: u8) -> Seq<char> {
    decimal(a as int) + "."@ + decimal(b as int) + "."@ + decimal(c as int) + "."@ + decimal(
        d as int,
    )
}

/// The groups of `g` in hexadecimal with colons between them.
pub open spec fn colon_text(g: Seq<u16>) -> Seq<char>
    decreases g.len(),
{
    if g.len() == 0 {
        Seq::empty()
    } else if g.len() == 1 {
        hexadecimal(g[0] as int)
    } else {
        colon_text(g.drop_last()) + ":"@ + hexadecimal(g.last() as int)
    }
}

/// How many groups of zero stand in a row from position `i` on.
pub open spec fn zero_run(g: Seq<u16>, i: int) -> int
    decreases g.len() - i,
{
    if 0 <= i < g.len() && g[i] == 0 {
        1 + zero_run(g, i + 1)
    } else {
        0
    }
}

/// Start and length of the longest run of zero groups that starts at `i` or
/// later, the first of them among equals; length 0 where there is none.
pub open spec fn longest_zero_run(g: Seq<u16>, i: int) -> (int, int)
    decreases g.len() - i,
{
    if 0 <= i < g.len() {
        let later = longest_zero_run(g, i + 1);
        if zero_run(g, i) > 0 && zero_run(g, i) >= later.1 {
            (i, zero_run(g, i))
        } else {
            later
        }
    } else {
        (0, 0)
    }
}

/// Whether the eight groups hold a version 4 address behind the mark
/// `::ffff:`.
pub open spec fn is_mapped(g: Seq<u16>) -> bool {
    g[0] == 0 && g[1] == 0 && g[2] == 0 && g[3] == 0 && g[4] == 0 && g[5] == 0xffff
}

/// The text of a version 6 address of eight groups: a mapped version 4
/// address as a dotted quad behind `::ffff:`; else the groups in hexadecimal,
/// the longest run of two or more zero groups written as a double colon.
pub open spec fn six_text(g: Seq<u16>) -> Seq<char> {
    let run = longest_zero_run(g, 0);
    if is_mapped(g) {
        "::ffff:"@ + quad_text((g[6] / 256) as u8, (g[6] % 256) as u8, (g[7] / 256) as u8, (g[7]
            % 256) as u8)
    } else if run.1 > 1 {
        colon_text(g.subrange(0, run.0)) + "::"@ + colon_text(g.subrange(run.0 + run.1, 8))
    } else {
        colon_text(g)
    }
}

impl IpAddress {
    /// The eight groups of a version 6 address; none of a version 4 address.
    pub open spec fn groups(self) -> Seq<u16> {
        match self {
            IpAddress::V4(_, _, _, _) => Seq::empty(),
            IpAddress::V6(a, b, c, d, e, f, g, h) => seq![a, b, c, d, e, f, g, h],
        }
    }

    /// The text that the address is written as.
    pub open spec fn text(self) -> Seq<char> {
        match self {
            IpAddress::V4(a, b, c, d) => quad_text(a, b, c, d),
            IpAddress::V6(_, _, _, _, _, _, _, _) => six_text(self.groups()),
        }
    }
}

/// What each row of `v` holds.
pub open spec fn rows(v: Seq<Vec<char>>) -> Seq<Seq<char>> {
    Seq::new(v.len(), |i: int| v[i]@)
}

/// The characters of `s`.
pub fn chars_of(s: &str) -> (r: Vec<char>)
    ensures
        r@ == s@,
{
    let n: usize = s.unicode_len();
    let mut out: Vec<char> = Vec::new();
    let mut i: usize = 0;
    while i < n
        invariant
            n == s@.len(),
            i <= n,
            out@ == s@.take(i as int),
        decreases n - i,
    {
        out.push(s.get_char(i));
        assert(out@ =~= s@.take(i + 1));
        i = i + 1;
    }
    assert(s@.take(n as int) =~= s@);
    out
}

/// The characters of `v` from `lo` up to `hi`.
fn piece(v: &Vec<char>, lo: usize, hi: usize) -> (r: Vec<char>)
    requires
        lo <= hi <= v.len(),
    ensures
        r@ == v@.subrange(lo as int, hi as int),
{
    let mut out: Vec<char> = Vec::new();
    let mut i: usize = lo;
    while i < hi
        invariant
            lo <= i <= hi <= v.len(),
            out@ == v@.subrange(lo as int, i as int),
        decreases hi - i,
    {
        out.push(v[i]);
        assert(out@ =~= v@.subrange(lo as int, i + 1));
        i = i + 1;
    }
    out
}

/// The pieces of `v` between the occurrences of `sep`.
fn split_fields(v: &Vec<char>, sep: char) -> (r: Vec<Vec<char>>)
    ensures
        rows(r@) == fields(v@, sep),
{
    let mut out: Vec<Vec<char>> = Vec::new();
    let mut i: usize = 0;
    assert(rows(out@) =~= Seq::<Seq<char>>::empty());
    loop
        invariant
            i <= v.len(),
            rows(out@) + fields_from(v@, i as int, sep) == fields(v@, sep),
        decreases v.len() - i,
    {
        let mut e: usize = i;
        while e < v.len() && v[e] != sep
            invariant
                i <= e <= v.len(),
                field_end(v@, e as int, sep) == field_end(v@, i as int, sep),
            decreases v.len() - e,
        {
            e = e + 1;
        }
        let ghost before = rows(out@);
        out.push(piece(v, i, e));
        assert(rows(out@) =~= before + seq![v@.subrange(i as int, e as int)]);
        if e >= v.len() {
            assert(before + seq![v@.subrange(i as int, e as int)] =~= before + fields_from(
                v@,
                i as int,
                sep,
            ));
            return out;
        }
        assert(rows(out@) + fields_from(v@, e + 1, sep) =~= before + fields_from(
            v@,
            i as int,
            sep,
        ));
        i = e + 1;
    }
}

/// The value of `c` as a digit in base `radix`.
fn digit(c: char, radix: u32) -> (r: Option<u32>)
    requires
        radix == 10 || radix == 16,
    ensures
        match r {
            Some(d) => digit_of(c, radix as int) == Some(d as int) && d < radix,
            None => digit_of(c, radix as int) is None,
        },
{
    let n: u32 = c as u32;
    if 0x30 <= n && n <= 0x39 {
        Some(n - 0x30)
    } else if radix == 16 && 0x61 <= n && n <= 0x66 {
        Some(n - 0x61 + 10)
    } else if radix == 16 && 0x41 <= n && n <= 0x46 {
        Some(n - 0x41 + 10)
    } else {
        None
    }
}

/// The number that `t` denotes in base `radix`, where `t` holds between one
/// and `most` digits of that base.
fn read_number(t: &Vec<char>, radix: u32, most: usize) -> (r: Option<u32>)
    requires
        radix == 10 || radix == 16,
        most <= 4,
    ensures
        r is Some <==> 1 <= t@.len() <= most && all_digits(t@, radix as int),
        r is Some ==> r->0 == number(t@, radix as int) && r->0 < 65536,
{
    if t.len() == 0 || t.len() > most {
        return None;
    }
    let mut acc: u32 = 0;
    let mut i: usize = 0;
    assert(t@.take(0).len() == 0);
    while i < t.len()
        invariant
            radix == 10 || radix == 16,
            i <= t.len() <= 4,
            acc == number(t@.take(i as int), radix as int),
            i == 0 ==> acc == 0,
            i == 1 ==> acc < 16,
            i == 2 ==> acc < 256,
            i == 3 ==> acc < 4096,
            i == 4 ==> acc < 65536,
            forall|k: int| 0 <= k < i ==> digit_of(#[trigger] t@[k], radix as int) is Some,
        decreases t.len() - i,
    {
        match digit(t[i], radix) {
            None => {
                return None;
            },
            Some(d) => {
                proof {
                    let next = t@.take(i + 1);
                    assert(next.drop_last() =~= t@.take(i as int));
                    assert(next.last() == t@[i as int]);
                }
                acc = acc * radix + d;
            },
        }
        i = i + 1;
    }
    assert(t@.take(t.len() as int) =~= t@);
    Some(acc)
}

/// The octet that `t` denotes.
fn read_octet(t: &Vec<char>) -> (r: Option<u8>)
    ensures
        r == octet(t@),
{
    match read_number(t, 10, 3) {
        None => None,
        Some(n) => {
            if (t.len() > 1 && t[0] == '0') || n > 255 {
                None
            } else {
                Some(n as u8)
            }
        },
    }
}

/// The group that `t` denotes.
fn read_group(t: &Vec<char>) -> (r: Option<u16>)
    ensures
        r == group(t@),
{
    match read_number(t, 16, 4) {
        None => None,
        Some(n) => Some(n as u16),
    }
}

/// The four octets that `v` denotes as a dotted quad.
fn read_quad(v: &Vec<char>) -> (r: Option<(u8, u8, u8, u8)>)
    ensures
        r == dotted_quad(v@),
{
    let f = split_fields(v, '.');
    if f.len() != 4 {
        assert(rows(f@).len() == f.len());
        return None;
    }
    assert(rows(f@)[0] == f@[0]@ && rows(f@)[1] == f@[1]@ && rows(f@)[2] == f@[2]@ && rows(f@)[3]
        == f@[3]@);
    match (read_octet(&f[0]), read_octet(&f[1]), read_octet(&f[2]), read_octet(&f[3])) {
        (Some(a), Some(b), Some(c), Some(d)) => Some((a, b, c, d)),
        _ => None,
    }
}

/// The groups that the first `n` rows of `f` denote, if each denotes one.
fn read_hex_groups(f: &Vec<Vec<char>>, n: usize) -> (r: Option<Vec<u16>>)
    requires
        n <= f.len(),
    ensures
        match r {
            Some(g) => hex_groups(rows(f@).take(n as int)) == Some(g@),
            None => hex_groups(rows(f@).take(n as int)) is None,
        },
{
    let mut out: Vec<u16> = Vec::new();
    let mut i: usize = 0;
    let ghost want = rows(f@).take(n as int);
    while i < n
        invariant
            i <= n <= f.len(),
            want == rows(f@).take(n as int),
            out@.len() == i,
            forall|k: int| 0 <= k < i ==> group(#[trigger] want[k]) == Some(out@[k]),
        decreases n - i,
    {
        assert(want[i as int] == f@[i as int]@);
        match read_group(&f[i]) {
            None => {
                return None;
            },
            Some(g) => {
                out.push(g);
            },
        }
        i = i + 1;
    }
    assert(hex_groups(want)->0 =~= out@);
    Some(out)
}

/// The groups written in `v` with colons between them.
fn read_colon_groups(v: &Vec<char>, quad: bool) -> (r: Option<Vec<u16>>)
    ensures
        match r {
            Some(g) => colon_groups(v@, quad) == Some(g@),
            None => colon_groups(v@, quad) is None,
        },
{
    if v.len() == 0 {
        return Some(Vec::new());
    }
    let f = split_fields(v, ':');
    assert(rows(f@).take(f.len() as int) =~= rows(f@));
    match read_hex_groups(&f, f.len()) {
        Some(g) => Some(g),
        None => {
            if !quad || f.len() == 0 {
                assert(f.len() == 0 ==> rows(f@) =~= Seq::<Seq<char>>::empty());
                return None;
            }
            let last: usize = f.len() - 1;
            assert(rows(f@).take(last as int) =~= rows(f@).drop_last());
            assert(rows(f@).last() == f@[last as int]@);
            match (read_hex_groups(&f, last), read_quad(&f[last])) {
                (Some(g), Some(q)) => {
                    let mut g = g;
                    let hi: u16 = (q.0 as u16) * 256 + (q.1 as u16);
                    let lo: u16 = (q.2 as u16) * 256 + (q.3 as u16);
                    let ghost before = g@;
                    g.push(hi);
                    g.push(lo);
                    assert(g@ =~= before + quad_groups(q));
                    Some(g)
                },
                _ => None,
            }
        },
    }
}

/// The eight groups of a version 6 address written as `v`.
fn read_six_groups(v: &Vec<char>) -> (r: Option<Vec<u16>>)
    ensures
        match r {
            Some(g) => six_groups(v@) == Some(g@) && g@.len() == 8,
            None => six_groups(v@) is None,
        },
{
    let n: usize = v.len();
    let mut p: usize = 0;
    while n - p >= 2 && !(v[p] == ':' && v[p + 1] == ':')
        invariant
            n == v.len(),
            p <= n,
            double_colon(v@, p as int) == double_colon(v@, 0),
        decreases n - p,
    {
        p = p + 1;
    }
    if n - p >= 2 {
        let head = read_colon_groups(&piece(v, 0, p), false);
        let tail = read_colon_groups(&piece(v, p + 2, n), true);
        match (head, tail) {
            (Some(h), Some(t)) => {
                if h.len() > 7 || t.len() > 7 - h.len() {
                    return None;
                }
                let mut out: Vec<u16> = h;
                let ghost hv = out@;
                let zeros: usize = 8 - out.len() - t.len();
                let mut i: usize = 0;
                while i < zeros
                    invariant
                        i <= zeros,
                        out@ == hv + zero_groups(i as int),
                    decreases zeros - i,
                {
                    out.push(0u16);
                    assert(out@ =~= hv + zero_groups(i + 1));
                    i = i + 1;
                }
                let mut j: usize = 0;
                while j < t.len()
                    invariant
                        j <= t.len(),
                        out@ == hv + zero_groups(zeros as int) + t@.take(j as int),
                    decreases t.len() - j,
                {
                    out.push(t[j]);
                    assert(out@ =~= hv + zero_groups(zeros as int) + t@.take(j + 1));
                    j = j + 1;
                }
                assert(t@.take(t.len() as int) =~= t@);
                Some(out)
            },
            _ => None,
        }
    } else {
        proof {
            lemma_double_colon_end(v@, p as int);
        }
        match read_colon_groups(v, true) {
            Some(g) => {
                if g.len() == 8 {
                    Some(g)
                } else {
                    None
                }
            },
            None => None,
        }
    }
}

proof fn lemma_double_colon_end(s: Seq<char>, p: int)
    requires
        0 <= p,
        p + 1 >= s.len(),
    ensures
        double_colon(s, p) == s.len(),
{
}

/// The digit of value `d`, as a text of one character.
fn digit_text(d: u32) -> (r: &'static str)
    requires
        d < 16,
    ensures
        r@ == seq![digit_char(d as int)],
{
    proof {
        reveal_strlit("0123456789abcdef");
    }
    let all: &'static str = "0123456789abcdef";
    let r = all.substring_char(d as usize, d as usize + 1);
    assert(r@ =~= seq![digit_char(d as int)]);
    r
}

/// `n` in decimal.
fn decimal_text(n: u32) -> (r: String)
    ensures
        r@ == decimal(n as int),
    decreases n,
{
    if n < 10 {
        String::from_str(digit_text(n))
    } else {
        let mut head = decimal_text(n / 10);
        head.append(digit_text(n % 10));
        head
    }
}

/// `n` in hexadecimal.
fn hexadecimal_text(n: u32) -> (r: String)
    ensures
        r@ == hexadecimal(n as int),
    decreases n,
{
    if n < 16 {
        String::from_str(digit_text(n))
    } else {
        let mut head = hexadecimal_text(n / 16);
        head.append(digit_text(n % 16));
        head
    }
}

/// Four octets in decimal with dots between them.
fn quad_string(a: u8, b: u8, c: u8, d: u8) -> (r: String)
    ensures
        r@ == quad_text(a, b, c, d),
{
    let mut out = decimal_text(a as u32);
    out.append(".");
    out.append(decimal_text(b as u32).as_str());
    out.append(".");
    out.append(decimal_text(c as u32).as_str());
    out.append(".");
    out.append(decimal_text(d as u32).as_str());
    out
}

/// The groups of `g` from `lo` up to `hi` in hexadecimal with colons between
/// them.
fn colon_string(g: &Vec<u16>, lo: usize, hi: usize) -> (r: String)
    requires
        lo <= hi <= g.len(),
    ensures
        r@ == colon_text(g@.subrange(lo as int, hi as int)),
{
    let mut out = String::new();
    let mut i: usize = lo;
    assert(g@.subrange(lo as int, lo as int).len() == 0);
    while i < hi
        invariant
            lo <= i <= hi <= g.len(),
            out@ == colon_text(g@.subrange(lo as int, i as int)),
        decreases hi - i,
    {
        let ghost next = g@.subrange(lo as int, i + 1);
        proof {
            assert(next.drop_last() =~= g@.subrange(lo as int, i as int));
            assert(next.last() == g@[i as int]);
        }
        if i > lo {
            out.append(":");
        }
        out.append(hexadecimal_text(g[i] as u32).as_str());
        proof {
            if i == lo {
                assert(out@ =~= hexadecimal(g@[i as int] as int));
            }
        }
        i = i + 1;
    }
    out
}

/// Start and length of the first longest run of zero groups in `g`.
fn find_zero_run(g: &Vec<u16>) -> (r: (usize, usize))
    ensures
        (r.0 as int, r.1 as int) == longest_zero_run(g@, 0),
        r.0 + r.1 <= g.len(),
{
    let n: usize = g.len();
    let mut best: (usize, usize) = (0, 0);
    let mut run: usize = 0;
    let mut i: usize = n;
    while i > 0
        invariant
            n == g.len(),
            i <= n,
            run == zero_run(g@, i as int),
            i + run <= n,
            (best.0 as int, best.1 as int) == longest_zero_run(g@, i as int),
            best.0 + best.1 <= n,
        decreases i,
    {
        i = i - 1;
        if g[i] == 0 {
            run = run + 1;
        } else {
            run = 0;
        }
        if run > 0 && run >= best.1 {
            best = (i, run);
        }
    }
    best
}

/// The text of the version 6 address of the eight groups `g`.
fn six_string(g: &Vec<u16>) -> (r: String)
    requires
        g.len() == 8,
    ensures
        r@ == six_text(g@),
{
    if g[0] == 0 && g[1] == 0 && g[2] == 0 && g[3] == 0 && g[4] == 0 && g[5] == 0xffff {
        let mut out = String::from_str("::ffff:");
        let quad = quad_string(
            (g[6] / 256) as u8,
            (g[6] % 256) as u8,
            (g[7] / 256) as u8,
            (g[7] % 256) as u8,
        );
        out.append(quad.as_str());
        return out;
    }
    let run = find_zero_run(g);
    if run.1 > 1 {
        let mut out = colon_string(g, 0, run.0);
        out.append("::");
        out.append(colon_string(g, run.0 + run.1, 8).as_str());
        out
    } else {
        assert(g@.subrange(0, 8) =~= g@);
        colon_string(g, 0, 8)
    }
}

impl IpAddress {
    /// The address that the text `s` denotes, if it denotes one.
    pub fn parse(s: &str) -> (r: Option<IpAddress>)
        ensures
            r == address_of(s@),
    {
        let v = chars_of(s);
        match read_quad(&v) {
            Some(q) => Some(IpAddress::V4(q.0, q.1, q.2, q.3)),
            None => match read_six_groups(&v) {
                Some(g) => Some(IpAddress::V6(g[0], g[1], g[2], g[3], g[4], g[5], g[6], g[7])),
                None => None,
            },
        }
    }
    /// The text that the address is written as.
    pub fn to_string(&self) -> (r: String)
        ensures
            r@ == self.text(),
    {
        match *self {
            IpAddress::V4(a, b, c, d) => quad_string(a, b, c, d),
            IpAddress::V6(a, b, c, d, e, f, g, h) => {
                let groups: Vec<u16> = vec![a, b, c, d, e, f, g, h];
                assert(groups@ =~= self.groups());
                six_string(&groups)
            },
        }
    }
}

} // verus!
