//! Textual forms of addresses: decimal octets, hexadecimal groups, and
//! the dotted-quad and colon-hex notations built from them.
use vstd::prelude::*;

verus! {

/// The ASCII character of the decimal digit `d`.
pub open spec fn digit_char(d: u8) -> char {
    (48 + d) as char
}

/// The decimal text of a byte, without leading zeros.
pub open spec fn decimal_u8(x: u8) -> Seq<char> {
    if x >= 100 {
        seq![digit_char(x / 100), digit_char((x / 10) % 10), digit_char(x % 10)]
    } else if x >= 10 {
        seq![digit_char(x / 10), digit_char(x % 10)]
    } else {
        seq![digit_char(x)]
    }
}

/// `String::push`: appends one character at the end of the string.
#[verifier::external_body]
pub(crate) fn push_char(s: &mut String, c: char)
    ensures
        final(s)@ == old(s)@.push(c),
{
    s.push(c);
}

/// The characters of Unicode's White_Space property, by which
/// `char::is_whitespace` decides.
pub open spec fn is_white_space(c: char) -> bool {
    let n = c as u32;
    ||| 0x09 <= n <= 0x0d
    ||| n == 0x20
    ||| n == 0x85
    ||| n == 0xa0
    ||| n == 0x1680
    ||| 0x2000 <= n <= 0x200a
    ||| n == 0x2028
    ||| n == 0x2029
    ||| n == 0x202f
    ||| n == 0x205f
    ||| n == 0x3000
}

/// `s` without its leading white space.
pub open spec fn trim_start(s: Seq<char>) -> Seq<char>
    decreases s.len(),
{
    if s.len() > 0 && is_white_space(s[0]) {
        trim_start(s.drop_first())
    } else {
        s
    }
}

/// `s` without its trailing white space.
pub open spec fn trim_end(s: Seq<char>) -> Seq<char>
    decreases s.len(),
{
    if s.len() > 0 && is_white_space(s.last()) {
        trim_end(s.drop_last())
    } else {
        s
    }
}

/// `s` without its leading and trailing white space.
pub open spec fn trimmed(s: Seq<char>) -> Seq<char> {
    trim_end(trim_start(s))
}

fn white_space(c: char) -> (b: bool)
    ensures
        b == is_white_space(c),
{
    let n = c as u32;
    (0x09 <= n && n <= 0x0d) || n == 0x20 || n == 0x85 || n == 0xa0 || n == 0x1680 || (0x2000 <= n
        && n <= 0x200a) || n == 0x2028 || n == 0x2029 || n == 0x202f || n == 0x205f || n == 0x3000
}

proof fn lemma_trim_start_skip(s: Seq<char>, k: int)
    requires
        0 <= k <= s.len(),
        forall|m: int| 0 <= m < k ==> is_white_space(#[trigger] s[m]),
    ensures
        trim_start(s) == trim_start(s.subrange(k, s.len() as int)),
    decreases k,
{
    if k > 0 {
        let d = s.drop_first();
        assert forall|m: int| 0 <= m < k - 1 implies is_white_space(#[trigger] d[m]) by {
            assert(d[m] == s[m + 1]);
        }
        lemma_trim_start_skip(d, k - 1);
        assert(d.subrange(k - 1, d.len() as int) =~= s.subrange(k, s.len() as int));
    } else {
        assert(s.subrange(0, s.len() as int) =~= s);
    }
}

proof fn lemma_trim_end_skip(s: Seq<char>, j: int)
    requires
        0 <= j <= s.len(),
        forall|m: int| j <= m < s.len() ==> is_white_space(#[trigger] s[m]),
    ensures
        trim_end(s) == trim_end(s.subrange(0, j)),
    decreases s.len() - j,
{
    if j < s.len() {
        let d = s.drop_last();
        assert forall|m: int| j <= m < d.len() implies is_white_space(#[trigger] d[m]) by {
            assert(d[m] == s[m]);
        }
        assert(is_white_space(s[s.len() - 1]));
        lemma_trim_end_skip(d, j);
        assert(d.subrange(0, j) =~= s.subrange(0, j));
    } else {
        assert(s.subrange(0, j) =~= s);
    }
}

/// The text `s` without its leading and trailing white space, as
/// `str::trim` gives it.
pub fn trim_text(s: &str) -> (t: &str)
    ensures
        t@ == trimmed(s@),
{
    let len = s.unicode_len();
    let mut i: usize = 0;
    while i < len && white_space(s.get_char(i))
        invariant
            len == s@.len(),
            i <= len,
            forall|m: int| 0 <= m < i ==> is_white_space(#[trigger] s@[m]),
        decreases len - i,
    {
        i = i + 1;
    }
    let mut j: usize = len;
    while j > i && white_space(s.get_char(j - 1))
        invariant
            len == s@.len(),
            i <= j <= len,
            forall|m: int| j <= m < len ==> is_white_space(#[trigger] s@[m]),
        decreases j - i,
    {
        j = j - 1;
    }
    proof {
        let whole = s@;
        lemma_trim_start_skip(whole, i as int);
        let u = whole.subrange(i as int, len as int);
        assert(trim_start(u) == u);
        assert forall|m: int| j - i <= m < u.len() implies is_white_space(#[trigger] u[m]) by {
            assert(u[m] == whole[m + i]);
        }
        lemma_trim_end_skip(u, j - i);
        let v = u.subrange(0, j - i);
        assert(v =~= whole.subrange(i as int, j as int));
        assert(trim_end(v) == v);
    }
    s.substring_char(i, j)
}

fn digit(d: u8) -> (c: char)
    requires
        d < 10,
    ensures
        c == digit_char(d),
{
    (48u8 + d) as char
}

/// Appends the decimal text of `x` to `out`.
pub fn push_decimal_u8(out: &mut String, x: u8)
    ensures
        final(out)@ == old(out)@ + decimal_u8(x),
{
    if x >= 100 {
        push_char(out, digit(x / 100));
        push_char(out, digit((x / 10) % 10));
        push_char(out, digit(x % 10));
    } else if x >= 10 {
        push_char(out, digit(x / 10));
        push_char(out, digit(x % 10));
    } else {
        push_char(out, digit(x));
    }
}


/// The dotted-quad text of a four-byte IPv4 address.
pub open spec fn ipv4_text(a: Seq<u8>) -> Seq<char> {
    decimal_u8(a[0]) + seq!['.'] + decimal_u8(a[1]) + seq!['.'] + decimal_u8(a[2]) + seq!['.']
        + decimal_u8(a[3])
}

/// Appends the dotted-quad text of `b[off..off + 4]` to `out`.
pub fn push_ipv4(out: &mut String, b: &[u8], off: usize)
    requires
        off + 4 <= b@.len(),
    ensures
        final(out)@ == old(out)@ + ipv4_text(b@.subrange(off as int, off + 4)),
{
    let ghost a = b@.subrange(off as int, off + 4);
    push_decimal_u8(out, b[off]);
    push_char(out, '.');
    push_decimal_u8(out, b[off + 1]);
    push_char(out, '.');
    push_decimal_u8(out, b[off + 2]);
    push_char(out, '.');
    push_decimal_u8(out, b[off + 3]);
    assert(final(out)@ =~= old(out)@ + ipv4_text(a));
}

/// The lowercase hexadecimal character of the digit `d` (below 16).
pub open spec fn hex_char(d: u16) -> char {
    if d < 10 {
        (48 + d) as char
    } else {
        (87 + d) as char
    }
}

/// The lowercase hexadecimal text of `x`, without leading zeros.
pub open spec fn hex_u16(x: u16) -> Seq<char>
    decreases x,
{
    if x < 16 {
        seq![hex_char(x)]
    } else {
        hex_u16(x / 16) + seq![hex_char(x % 16)]
    }
}

fn hex_digit(d: u16) -> (c: char)
    requires
        d < 16,
    ensures
        c == hex_char(d),
{
    if d < 10 {
        (48u8 + d as u8) as char
    } else {
        (87u8 + d as u8) as char
    }
}

/// Appends the hexadecimal text of `x` to `out`.
pub fn push_hex_u16(out: &mut String, x: u16)
    ensures
        final(out)@ == old(out)@ + hex_u16(x),
{
    proof {
        reveal_with_fuel(hex_u16, 4);
    }
    if x >= 4096 {
        push_char(out, hex_digit(x / 4096));
        push_char(out, hex_digit((x / 256) % 16));
        push_char(out, hex_digit((x / 16) % 16));
        push_char(out, hex_digit(x % 16));
        assert(x / 16 / 16 / 16 == x / 4096 && x / 16 / 16 % 16 == (x / 256) % 16);
    } else if x >= 256 {
        push_char(out, hex_digit(x / 256));
        push_char(out, hex_digit((x / 16) % 16));
        push_char(out, hex_digit(x % 16));
        assert(x / 16 / 16 == x / 256);
    } else if x >= 16 {
        push_char(out, hex_digit(x / 16));
        push_char(out, hex_digit(x % 16));
    } else {
        push_char(out, hex_digit(x));
    }
    assert(final(out)@ =~= old(out)@ + hex_u16(x));
}

/// The colon-separated hexadecimal text of a run of 16-bit groups.
pub open spec fn hex_groups(g: Seq<u16>) -> Seq<char>
    decreases g.len(),
{
    if g.len() == 0 {
        seq![]
    } else if g.len() == 1 {
        hex_u16(g[0])
    } else {
        hex_groups(g.drop_last()) + seq![':'] + hex_u16(g.last())
    }
}

/// The eight big-endian 16-bit groups of a sixteen-byte IPv6 address.
pub open spec fn ipv6_groups(a: Seq<u8>) -> Seq<u16> {
    Seq::new(8, |i: int| (a[2 * i] * 256 + a[2 * i + 1]) as u16)
}

/// `g[s..s + l]` lies within `g` and holds only zero groups.
pub open spec fn zero_run(g: Seq<u16>, s: int, l: int) -> bool {
    &&& 0 <= s
    &&& 0 <= l
    &&& s + l <= g.len()
    &&& forall|j: int| s <= j < s + l ==> g[j] == 0
}

/// `g[s..s + l]` is the longest run of zero groups in `g`, the leftmost
/// one among runs of that length (an empty run at 0 when there is none).
pub open spec fn longest_zero_run(g: Seq<u16>, s: int, l: int) -> bool {
    &&& zero_run(g, s, l)
    &&& forall|s2: int, l2: int| #[trigger] zero_run(g, s2, l2) ==> l2 <= l
    &&& forall|s2: int| 0 <= s2 < s ==> !#[trigger] zero_run(g, s2, l)
}

/// The address is an IPv4-mapped IPv6 address (`::ffff:a.b.c.d`).
pub open spec fn is_ipv4_mapped(g: Seq<u16>) -> bool {
    &&& g[0] == 0
    &&& g[1] == 0
    &&& g[2] == 0
    &&& g[3] == 0
    &&& g[4] == 0
    &&& g[5] == 0xffff
}

/// The text of an IPv6 address as RFC 5952 recommends it: lowercase
/// hexadecimal groups without leading zeros, the longest run of two or
/// more zero groups (the leftmost one on a tie) written as `::`, and an
/// IPv4-mapped address written as `::ffff:` and a dotted quad.
pub open spec fn ipv6_text(a: Seq<u8>) -> Seq<char> {
    let g = ipv6_groups(a);
    if is_ipv4_mapped(g) {
        seq![':', ':', 'f', 'f', 'f', 'f', ':'] + ipv4_text(a.subrange(12, 16))
    } else {
        let (s, l): (int, int) = choose|s: int, l: int| longest_zero_run(g, s, l);
        if l > 1 {
            hex_groups(g.subrange(0, s)) + seq![':', ':'] + hex_groups(g.subrange(s + l, 8))
        } else {
            hex_groups(g)
        }
    }
}

/// There is one longest-leftmost zero run.
pub proof fn lemma_longest_zero_run_unique(g: Seq<u16>, s1: int, l1: int, s2: int, l2: int)
    requires
        longest_zero_run(g, s1, l1),
        longest_zero_run(g, s2, l2),
    ensures
        s1 == s2,
        l1 == l2,
{
    assert(zero_run(g, s2, l2));
    assert(zero_run(g, s1, l1));
    assert(l1 == l2);
    if s1 < s2 {
        assert(!zero_run(g, s1, l2));
    } else if s2 < s1 {
        assert(!zero_run(g, s2, l1));
    }
}

fn read_groups(b: &[u8], off: usize) -> (g: Vec<u16>)
    requires
        off + 16 <= b@.len(),
    ensures
        g@ == ipv6_groups(b@.subrange(off as int, off + 16)),
{
    let ghost a = b@.subrange(off as int, off + 16);
    let n: usize = b.len();
    let mut g: Vec<u16> = Vec::new();
    let mut i: usize = 0;
    while i < 8
        invariant
            i <= 8,
            n == b@.len(),
            off + 16 <= b@.len(),
            a == b@.subrange(off as int, off + 16),
            g@.len() == i,
            forall|k: int| 0 <= k < i ==> g@[k] == ipv6_groups(a)[k],
        decreases 8 - i,
    {
        assert(off + 2 * i + 1 < b@.len());
        let hi: u16 = b[off + 2 * i] as u16;
        let lo: u16 = b[off + 2 * i + 1] as u16;
        g.push(hi * 256 + lo);
        i = i + 1;
    }
    assert(g@ =~= ipv6_groups(a));
    g
}

/// Finds the longest-leftmost run of zero groups.
fn find_zero_run(g: &Vec<u16>) -> (r: (usize, usize))
    requires
        g@.len() == 8,
    ensures
        longest_zero_run(g@, r.0 as int, r.1 as int),
{
    let mut best_start: usize = 0;
    let mut best_len: usize = 0;
    let mut cur_len: usize = 0;
    let mut i: usize = 0;
    while i < 8
        invariant
            g@.len() == 8,
            i <= 8,
            cur_len <= i,
            zero_run(g@, i - cur_len, cur_len as int),
            i - cur_len == 0 || g@[i - cur_len - 1] != 0,
            best_start + best_len <= i,
            zero_run(g@, best_start as int, best_len as int),
            forall|s2: int, l2: int| #[trigger] zero_run(g@, s2, l2) && s2 + l2 <= i ==> l2 <= best_len,
            forall|s2: int| 0 <= s2 < best_start && s2 + best_len <= i ==> !#[trigger] zero_run(g@, s2, best_len as int),
        decreases 8 - i,
    {
        if g[i] == 0 {
            cur_len = cur_len + 1;
            if cur_len > best_len {
                best_start = i + 1 - cur_len;
                best_len = cur_len;
            }
            assert forall|s2: int, l2: int| #[trigger] zero_run(g@, s2, l2) && s2 + l2 <= i + 1 implies l2 <= best_len by {
                if s2 + l2 == i + 1 && l2 > cur_len {
                    assert(g@[i - cur_len] == 0);
                }
            }
        } else {
            cur_len = 0;
            assert forall|s2: int, l2: int| #[trigger] zero_run(g@, s2, l2) && s2 + l2 <= i + 1 implies l2 <= best_len by {
                if s2 + l2 == i + 1 && l2 > 0 {
                    assert(g@[i as int] == 0);
                }
            }
        }
        i = i + 1;
    }
    (best_start, best_len)
}


/// Appends the colon-separated text of `g[from..to]` to `out`.
fn push_hex_groups(out: &mut String, g: &Vec<u16>, from: usize, to: usize)
    requires
        from <= to <= g@.len(),
    ensures
        final(out)@ == old(out)@ + hex_groups(g@.subrange(from as int, to as int)),
{
    let ghost start = out@;
    let mut i: usize = from;
    assert(g@.subrange(from as int, from as int) =~= Seq::<u16>::empty());
    assert(out@ =~= start + hex_groups(g@.subrange(from as int, from as int)));
    while i < to
        invariant
            from <= i <= to <= g@.len(),
            out@ == start + hex_groups(g@.subrange(from as int, i as int)),
        decreases to - i,
    {
        let ghost prev = g@.subrange(from as int, i as int);
        let ghost next = g@.subrange(from as int, i + 1);
        assert(next.drop_last() =~= prev);
        if i > from {
            push_char(out, ':');
        }
        push_hex_u16(out, g[i]);
        proof {
            if i > from {
                assert(hex_groups(next) == hex_groups(prev) + seq![':'] + hex_u16(g@[i as int]));
            } else {
                assert(prev.len() == 0);
                assert(hex_groups(next) == hex_u16(g@[i as int]));
            }
        }
        assert(out@ =~= start + hex_groups(next));
        i = i + 1;
    }
}

/// Appends the RFC 5952 text of the IPv6 address `b[off..off + 16]` to `out`.
pub fn push_ipv6(out: &mut String, b: &[u8], off: usize)
    requires
        off + 16 <= b@.len(),
    ensures
        final(out)@ == old(out)@ + ipv6_text(b@.subrange(off as int, off + 16)),
{
    let ghost a = b@.subrange(off as int, off + 16);
    let n: usize = b.len();
    let g = read_groups(b, off);
    if g[0] == 0 && g[1] == 0 && g[2] == 0 && g[3] == 0 && g[4] == 0 && g[5] == 0xffff {
        push_char(out, ':');
        push_char(out, ':');
        push_char(out, 'f');
        push_char(out, 'f');
        push_char(out, 'f');
        push_char(out, 'f');
        push_char(out, ':');
        push_ipv4(out, b, off + 12);
        assert(b@.subrange(off + 12, off + 16) =~= a.subrange(12, 16));
        assert(final(out)@ =~= old(out)@ + ipv6_text(a));
    } else {
        let run: (usize, usize) = find_zero_run(&g);
        let s: usize = run.0;
        let l: usize = run.1;
        proof {
            let (cs, cl): (int, int) = choose|s: int, l: int| longest_zero_run(g@, s, l);
            lemma_longest_zero_run_unique(g@, s as int, l as int, cs, cl);
        }
        if l > 1 {
            push_hex_groups(out, &g, 0, s);
            push_char(out, ':');
            push_char(out, ':');
            push_hex_groups(out, &g, s + l, 8);
            assert(final(out)@ =~= old(out)@ + ipv6_text(a));
        } else {
            push_hex_groups(out, &g, 0, 8);
            assert(g@.subrange(0, 8) =~= g@);
        }
    }
}

/// Every character of a decimal text is a digit.
pub proof fn lemma_decimal_digits(x: u8, i: int)
    requires
        0 <= i < decimal_u8(x).len(),
    ensures
        48 <= decimal_u8(x)[i] as int <= 57,
{
}

/// A decimal text followed by a dot determines the byte and what follows.
proof fn lemma_decimal_prefix(x: u8, y: u8, s1: Seq<char>, s2: Seq<char>)
    requires
        s1.len() > 0 && s1[0] == '.',
        s2.len() > 0 && s2[0] == '.',
        decimal_u8(x) + s1 == decimal_u8(y) + s2,
    ensures
        x == y,
        s1 == s2,
{
    let dx = decimal_u8(x);
    let dy = decimal_u8(y);
    let whole = dx + s1;
    if dx.len() < dy.len() {
        assert(whole[dx.len() as int] == '.');
        lemma_decimal_digits(y, dx.len() as int);
        assert(whole[dx.len() as int] == dy[dx.len() as int]);
    } else if dy.len() < dx.len() {
        assert((dy + s2)[dy.len() as int] == '.');
        lemma_decimal_digits(x, dy.len() as int);
        assert(whole[dy.len() as int] == dx[dy.len() as int]);
    }
    assert(dx =~= whole.subrange(0, dx.len() as int));
    assert(dy =~= (dy + s2).subrange(0, dy.len() as int));
    assert(s1 =~= whole.subrange(dx.len() as int, whole.len() as int));
    assert(s2 =~= (dy + s2).subrange(dy.len() as int, whole.len() as int));
    lemma_decimal_injective(x, y);
}

/// Distinct bytes have distinct decimal texts.
pub proof fn lemma_decimal_injective(x: u8, y: u8)
    requires
        decimal_u8(x) == decimal_u8(y),
    ensures
        x == y,
{
    let d = decimal_u8(x);
    if d.len() == 3 {
        assert(d[0] == digit_char(x / 100) && d[0] == digit_char(y / 100));
        assert(d[1] == digit_char((x / 10) % 10) && d[1] == digit_char((y / 10) % 10));
        assert(d[2] == digit_char(x % 10) && d[2] == digit_char(y % 10));
    } else if d.len() == 2 {
        assert(d[0] == digit_char(x / 10) && d[0] == digit_char(y / 10));
        assert(d[1] == digit_char(x % 10) && d[1] == digit_char(y % 10));
    } else {
        assert(d[0] == digit_char(x) && d[0] == digit_char(y));
    }
}

/// The dotted-quad text split after its first byte.
proof fn lemma_ipv4_text_split(a: Seq<u8>)
    requires
        a.len() == 4,
    ensures
        ipv4_text(a) == decimal_u8(a[0]) + (seq!['.'] + (decimal_u8(a[1]) + (seq!['.'] + (decimal_u8(a[2])
            + (seq!['.'] + decimal_u8(a[3])))))),
{
    assert(ipv4_text(a) =~= decimal_u8(a[0]) + (seq!['.'] + (decimal_u8(a[1]) + (seq!['.'] + (
    decimal_u8(a[2]) + (seq!['.'] + decimal_u8(a[3])))))));
}

/// Distinct IPv4 addresses have distinct dotted-quad texts, so comparing
/// the texts compares the addresses.
pub proof fn lemma_ipv4_text_injective(a: Seq<u8>, b: Seq<u8>)
    requires
        a.len() == 4,
        b.len() == 4,
        ipv4_text(a) == ipv4_text(b),
    ensures
        a == b,
{
    let ta3 = decimal_u8(a[3]);
    let tb3 = decimal_u8(b[3]);
    let ra2 = decimal_u8(a[2]) + (seq!['.'] + ta3);
    let rb2 = decimal_u8(b[2]) + (seq!['.'] + tb3);
    let ra1 = decimal_u8(a[1]) + (seq!['.'] + ra2);
    let rb1 = decimal_u8(b[1]) + (seq!['.'] + rb2);
    lemma_ipv4_text_split(a);
    lemma_ipv4_text_split(b);
    lemma_decimal_prefix(a[0], b[0], seq!['.'] + ra1, seq!['.'] + rb1);
    assert(ra1 == (seq!['.'] + ra1).drop_first());
    assert(rb1 == (seq!['.'] + rb1).drop_first());
    lemma_decimal_prefix(a[1], b[1], seq!['.'] + ra2, seq!['.'] + rb2);
    assert(ra2 == (seq!['.'] + ra2).drop_first());
    assert(rb2 == (seq!['.'] + rb2).drop_first());
    lemma_decimal_prefix(a[2], b[2], seq!['.'] + ta3, seq!['.'] + tb3);
    assert(ta3 == (seq!['.'] + ta3).drop_first());
    assert(tb3 == (seq!['.'] + tb3).drop_first());
    lemma_decimal_injective(a[3], b[3]);
    assert(a =~= b);
}

} // verus!
