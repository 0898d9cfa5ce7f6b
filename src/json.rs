use vstd::prelude::*;
use crate::profile::{
    CustomizationProfile, DecalSettings, DecalView, HslMutationSettings, OverlaySettings,
    OverlayView, ProfileView, Scale, SerializablePosition, SerializableSvgSource, SourceView,
    SCALE_FULL,
};

verus! {

/// Relies on `String::push`: appends one character to the end of the string.
#[verifier::external_body]
fn push_char(s: &mut String, c: char)
    ensures
        final(s)@ == old(s)@.push(c),
{
    s.push(c);
}

// ---------------------------------------------------------------- strings

/// The lower-case hexadecimal digit of `n < 16`.
pub open spec fn hex_char(n: nat) -> char {
    if n < 10 {
        ((n + 48) as u8) as char
    } else {
        ((n + 87) as u8) as char
    }
}

/// The value of a lower-case hexadecimal digit.
pub open spec fn hex_val(c: char) -> Option<nat> {
    let v = c as u32;
    if 48 <= v <= 57 {
        Some((v - 48) as nat)
    } else if 97 <= v <= 102 {
        Some((v - 87) as nat)
    } else {
        None
    }
}

/// How one character stands inside a JSON string: quote and backslash are
/// escaped, control characters are written as `\u00XX`.
pub open spec fn escape_char(c: char) -> Seq<char> {
    let v = c as u32;
    if c == '"' {
        seq!['\\', '"']
    } else if c == '\\' {
        seq!['\\', '\\']
    } else if v < 32 {
        seq!['\\', 'u', '0', '0', hex_char((v / 16) as nat), hex_char((v % 16) as nat)]
    } else {
        seq![c]
    }
}

/// The escaped body of a JSON string holding `s`.
pub open spec fn escape(s: Seq<char>) -> Seq<char>
    decreases s.len(),
{
    if s.len() == 0 {
        seq![]
    } else {
        escape_char(s[0]) + escape(s.skip(1))
    }
}

/// `s` as a JSON string.
pub open spec fn quoted(s: Seq<char>) -> Seq<char> {
    seq!['"'] + escape(s) + seq!['"']
}

pub open spec fn prepend(c: char, r: Option<(Seq<char>, Seq<char>)>) -> Option<
    (Seq<char>, Seq<char>),
> {
    match r {
        Some((b, t)) => Some((seq![c] + b, t)),
        None => None,
    }
}

/// Reads the body of a JSON string up to its closing quote: the characters
/// it holds and the text after the quote. Accepts `\"`, `\\` and `\u00XX`
/// below `0x80`; refuses raw control characters.
pub open spec fn unescape(s: Seq<char>) -> Option<(Seq<char>, Seq<char>)>
    decreases s.len(),
{
    if s.len() == 0 {
        None
    } else if s[0] == '"' {
        Some((seq![], s.skip(1)))
    } else if s[0] == '\\' {
        if s.len() >= 2 && (s[1] == '"' || s[1] == '\\') {
            prepend(s[1], unescape(s.skip(2)))
        } else if s.len() >= 6 && s[1] == 'u' && s[2] == '0' && s[3] == '0' && hex_val(s[4]) is Some
            && hex_val(s[4])->0 < 8 && hex_val(s[5]) is Some {
            prepend(
                ((hex_val(s[4])->0 * 16 + hex_val(s[5])->0) as u8) as char,
                unescape(s.skip(6)),
            )
        } else {
            None
        }
    } else if (s[0] as u32) < 32 {
        None
    } else {
        prepend(s[0], unescape(s.skip(1)))
    }
}

proof fn lemma_hex(n: nat)
    requires
        n < 16,
    ensures
        hex_val(hex_char(n)) == Some(n),
{
}

proof fn lemma_escape_push(a: Seq<char>, c: char)
    ensures
        escape(a.push(c)) == escape(a) + escape_char(c),
    decreases a.len(),
{
    if a.len() == 0 {
        let e: Seq<char> = seq![];
        assert(a.push(c).skip(1) =~= e);
        assert(escape(e) == e);
        assert(escape(a) == e);
        assert(a.push(c)[0] == c);
        assert(escape(a.push(c)) =~= escape(a) + escape_char(c));
    } else {
        assert(a.push(c).skip(1) =~= a.skip(1).push(c));
        assert(a.push(c)[0] == a[0]);
        lemma_escape_push(a.skip(1), c);
        assert(escape(a.push(c)) =~= escape(a) + escape_char(c));
    }
}

/// Reading an escaped string back gives the string and the text after it.
pub proof fn lemma_unescape_escape(s: Seq<char>, t: Seq<char>)
    ensures
        unescape(escape(s) + seq!['"'] + t) == Some((s, t)),
    decreases s.len(),
{
    let input = escape(s) + seq!['"'] + t;
    if s.len() == 0 {
        assert(input =~= seq!['"'] + t);
        assert(input.skip(1) =~= t);
    } else {
        let c = s[0];
        let e = escape_char(c);
        let r = escape(s.skip(1)) + seq!['"'] + t;
        assert(input =~= e + r);
        lemma_unescape_escape(s.skip(1), t);
        assert(seq![c] + s.skip(1) =~= s);
        let v = c as u32;
        if c == '"' || c == '\\' {
            assert(input.skip(2) =~= r);
        } else if v < 32 {
            lemma_hex((v / 16) as nat);
            lemma_hex((v % 16) as nat);
            assert(input.skip(6) =~= r);
            let w = (v / 16) as nat * 16 + (v % 16) as nat;
            assert(w == v as nat);
            lemma_small_char(c);
        } else {
            assert(input.skip(1) =~= r);
        }
    }
}

proof fn lemma_small_char(c: char)
    requires
        (c as u32) < 32,
    ensures
        (((c as u32) as u8) as char) == c,
{
}

fn hex_digit(n: u32) -> (c: char)
    requires
        n < 16,
    ensures
        c == hex_char(n as nat),
{
    if n < 10 {
        ((n + 48) as u8) as char
    } else {
        ((n + 87) as u8) as char
    }
}

fn push_escaped_char(out: &mut String, c: char)
    ensures
        final(out)@ == old(out)@ + escape_char(c),
{
    let v = c as u32;
    if c == '"' {
        push_char(out, '\\');
        push_char(out, '"');
    } else if c == '\\' {
        push_char(out, '\\');
        push_char(out, '\\');
    } else if v < 32 {
        push_char(out, '\\');
        push_char(out, 'u');
        push_char(out, '0');
        push_char(out, '0');
        push_char(out, hex_digit(v / 16));
        push_char(out, hex_digit(v % 16));
    } else {
        push_char(out, c);
    }
    assert(final(out)@ =~= old(out)@ + escape_char(c));
}

/// Appends `s` as a JSON string.
fn push_quoted(out: &mut String, s: &str)
    ensures
        final(out)@ == old(out)@ + quoted(s@),
{
    let ghost start = out@;
    push_char(out, '"');
    let n = s.unicode_len();
    let mut i: usize = 0;
    while i < n
        invariant
            n == s@.len(),
            i <= n,
            out@ == start + seq!['"'] + escape(s@.take(i as int)),
        decreases n - i,
    {
        let c = s.get_char(i);
        push_escaped_char(out, c);
        proof {
            assert(s@.take(i + 1) =~= s@.take(i as int).push(c));
            lemma_escape_push(s@.take(i as int), c);
        }
        i = i + 1;
    }
    push_char(out, '"');
    assert(s@.take(n as int) =~= s@);
    assert(out@ =~= start + quoted(s@));
}

pub open spec fn prepend_all(a: Seq<char>, r: Option<(Seq<char>, Seq<char>)>) -> Option<
    (Seq<char>, Seq<char>),
> {
    match r {
        Some((b, t)) => Some((a + b, t)),
        None => None,
    }
}

proof fn lemma_prepend_all(a: Seq<char>, c: char, r: Option<(Seq<char>, Seq<char>)>)
    ensures
        prepend_all(a, prepend(c, r)) == prepend_all(a.push(c), r),
{
    if let Some((b, t)) = r {
        assert(a + (seq![c] + b) =~= a.push(c) + b);
    }
}

fn hex_value(c: char) -> (r: Option<u32>)
    ensures
        match hex_val(c) {
            Some(v) => r == Some(v as u32),
            None => r is None,
        },
{
    let v = c as u32;
    if 48 <= v && v <= 57 {
        Some(v - 48)
    } else if 97 <= v && v <= 102 {
        Some(v - 87)
    } else {
        None
    }
}

/// Reads a JSON string body that starts at `pos`, as `unescape` says.
fn read_escaped(c: &Vec<char>, pos: usize) -> (r: Option<(String, usize)>)
    requires
        pos <= c@.len(),
    ensures
        match unescape(c@.skip(pos as int)) {
            Some((b, t)) => r matches Some((s, q)) && s@ == b && q <= c@.len() && c@.skip(q as int)
                == t,
            None => r is None,
        },
{
    let n = c.len();
    let mut acc = String::new();
    let mut i: usize = pos;
    while i < n
        invariant
            n == c@.len(),
            pos <= i <= n,
            unescape(c@.skip(pos as int)) == prepend_all(acc@, unescape(c@.skip(i as int))),
        decreases n - i,
    {
        let ghost rest = c@.skip(i as int);
        let ch = c[i];
        assert(rest[0] == ch);
        if ch == '"' {
            assert(acc@ + seq![] =~= acc@);
            assert(rest.skip(1) =~= c@.skip(i + 1));
            return Some((acc, i + 1));
        } else if ch == '\\' {
            if i + 1 < n && (c[i + 1] == '"' || c[i + 1] == '\\') {
                let e = c[i + 1];
                proof {
                    assert(rest[1] == e);
                    assert(rest.skip(2) =~= c@.skip(i + 2));
                    lemma_prepend_all(acc@, e, unescape(rest.skip(2)));
                }
                push_char(&mut acc, e);
                i = i + 2;
            } else if n - i > 5 && c[i + 1] == 'u' && c[i + 2] == '0' && c[i + 3] == '0' {
                let h = hex_value(c[i + 4]);
                let l = hex_value(c[i + 5]);
                match (h, l) {
                    (Some(hv), Some(lv)) => {
                        if hv < 8 {
                            let d = ((hv * 16 + lv) as u8) as char;
                            proof {
                                assert(rest[4] == c@[i + 4] && rest[5] == c@[i + 5]);
                                assert(rest.skip(6) =~= c@.skip(i + 6));
                                lemma_prepend_all(acc@, d, unescape(rest.skip(6)));
                            }
                            push_char(&mut acc, d);
                            i = i + 6;
                        } else {
                            return None;
                        }
                    },
                    _ => {
                        proof {
                            assert(rest[4] == c@[i + 4] && rest[5] == c@[i + 5]);
                        }
                        return None;
                    },
                }
            } else {
                proof {
                    if rest.len() >= 6 {
                        assert(rest[1] == c@[i + 1] && rest[2] == c@[i + 2] && rest[3] == c@[i + 3]);
                    }
                    if rest.len() >= 2 {
                        assert(rest[1] == c@[i + 1]);
                    }
                }
                return None;
            }
        } else if (ch as u32) < 32 {
            return None;
        } else {
            proof {
                assert(rest.skip(1) =~= c@.skip(i + 1));
                lemma_prepend_all(acc@, ch, unescape(rest.skip(1)));
            }
            push_char(&mut acc, ch);
            i = i + 1;
        }
    }
    assert(c@.skip(n as int).len() == 0);
    None
}

// ---------------------------------------------------------------- integers

pub open spec fn digit_char(d: nat) -> char {
    ((d + 48) as u8) as char
}

pub open spec fn is_digit(c: char) -> bool {
    48 <= (c as u32) <= 57
}

/// The decimal digits of `n`, without leading zeros.
pub open spec fn dec(n: nat) -> Seq<char>
    decreases n,
{
    if n < 10 {
        seq![digit_char(n)]
    } else {
        dec(n / 10).push(digit_char(n % 10))
    }
}

/// The JSON text of an integer.
pub open spec fn int_text(v: int) -> Seq<char> {
    if v < 0 {
        seq!['-'] + dec((-v) as nat)
    } else {
        dec(v as nat)
    }
}

/// The number of leading digits of `s`.
pub open spec fn digit_run(s: Seq<char>) -> nat
    decreases s.len(),
{
    if s.len() > 0 && is_digit(s[0]) {
        1 + digit_run(s.skip(1))
    } else {
        0
    }
}

/// The value of a run of decimal digits.
pub open spec fn digits_val(d: Seq<char>) -> nat
    decreases d.len(),
{
    if d.len() == 0 {
        0
    } else {
        digits_val(d.drop_last()) * 10 + ((d.last() as u32) - 48) as nat
    }
}

/// The bound below which a number's magnitude is read.
pub const MAGNITUDE_LIMIT: u64 = 0x1_0000_0000;

/// Reads an integer: an optional `-` and a run of digits whose value is
/// below `MAGNITUDE_LIMIT`; gives the value and the text after it.
pub open spec fn parse_int(s: Seq<char>) -> Option<(int, Seq<char>)> {
    let neg = s.len() > 0 && s[0] == '-';
    let body = if neg {
        s.skip(1)
    } else {
        s
    };
    let k = digit_run(body);
    let m = digits_val(body.take(k as int));
    if k == 0 || m >= MAGNITUDE_LIMIT {
        None
    } else {
        Some((if neg {
            -m
        } else {
            m as int
        }, body.skip(k as int)))
    }
}

proof fn lemma_dec(n: nat)
    ensures
        dec(n).len() >= 1,
        forall|i: int| 0 <= i < dec(n).len() ==> is_digit(#[trigger] dec(n)[i]),
        digits_val(dec(n)) == n,
    decreases n,
{
    if n >= 10 {
        lemma_dec(n / 10);
        let d = dec(n / 10);
        assert(dec(n).drop_last() =~= d);
        assert(forall|i: int| 0 <= i < d.len() ==> dec(n)[i] == #[trigger] d[i]);
    } else {
        assert(digits_val(dec(n).drop_last()) == 0);
    }
}

proof fn lemma_digit_run(d: Seq<char>, t: Seq<char>)
    requires
        forall|i: int| 0 <= i < d.len() ==> is_digit(#[trigger] d[i]),
        t.len() == 0 || !is_digit(t[0]),
    ensures
        digit_run(d + t) == d.len(),
    decreases d.len(),
{
    if d.len() == 0 {
        assert(d + t =~= t);
    } else {
        assert((d + t).skip(1) =~= d.skip(1) + t);
        assert((d + t)[0] == d[0]);
        lemma_digit_run(d.skip(1), t);
    }
}

/// Reading an integer's text back gives the integer and the text after it,
/// where that text does not go on with a digit.
pub proof fn lemma_parse_int_text(v: int, t: Seq<char>)
    requires
        -MAGNITUDE_LIMIT < v < MAGNITUDE_LIMIT,
        t.len() == 0 || !is_digit(t[0]),
    ensures
        parse_int(int_text(v) + t) == Some((v, t)),
{
    let m: nat = if v < 0 {
        (-v) as nat
    } else {
        v as nat
    };
    lemma_dec(m);
    let d = dec(m);
    let body = d + t;
    lemma_digit_run(d, t);
    assert(body.take(d.len() as int) =~= d);
    assert(body.skip(d.len() as int) =~= t);
    if v < 0 {
        assert((int_text(v) + t).skip(1) =~= body);
    } else {
        assert(int_text(v) + t =~= body);
        assert(is_digit(d[0]));
    }
}

/// Appends the decimal digits of `n`.
fn push_dec(out: &mut String, n: u64)
    ensures
        final(out)@ == old(out)@ + dec(n as nat),
    decreases n,
{
    if n >= 10 {
        push_dec(out, n / 10);
    }
    push_char(out, ((n % 10 + 48) as u8) as char);
    assert(final(out)@ =~= old(out)@ + dec(n as nat));
}

/// Appends the JSON text of `v`.
fn push_int(out: &mut String, v: i64)
    ensures
        final(out)@ == old(out)@ + int_text(v as int),
{
    if v < 0 {
        push_char(out, '-');
        let m: u64 = if v == i64::MIN {
            0x8000_0000_0000_0000u64
        } else {
            (-v) as u64
        };
        push_dec(out, m);
    } else {
        push_dec(out, v as u64);
    }
    assert(final(out)@ =~= old(out)@ + int_text(v as int));
}

proof fn lemma_digit_run_prefix(s: Seq<char>, j: int)
    requires
        0 <= j <= s.len(),
        forall|i: int| 0 <= i < j ==> is_digit(#[trigger] s[i]),
    ensures
        digit_run(s) >= j,
        j < s.len() && !is_digit(s[j]) ==> digit_run(s) == j,
        j == s.len() ==> digit_run(s) == j,
    decreases j,
{
    if j > 0 {
        assert forall|i: int| 0 <= i < j - 1 implies is_digit(#[trigger] s.skip(1)[i]) by {
            assert(s.skip(1)[i] == s[i + 1]);
        }
        lemma_digit_run_prefix(s.skip(1), j - 1);
    } else if j < s.len() && !is_digit(s[j]) {
    }
}

/// Reads an integer that starts at `pos`, as `parse_int` says.
fn read_int(c: &Vec<char>, pos: usize) -> (r: Option<(i64, usize)>)
    requires
        pos <= c@.len(),
    ensures
        match parse_int(c@.skip(pos as int)) {
            Some((v, t)) => r matches Some((x, q)) && x == v && q <= c@.len() && c@.skip(q as int)
                == t,
            None => r is None,
        },
{
    let n = c.len();
    let ghost s = c@.skip(pos as int);
    let neg = pos < n && c[pos] == '-';
    assert(neg == (s.len() > 0 && s[0] == '-'));
    let start = if neg {
        pos + 1
    } else {
        pos
    };
    let ghost body = if neg {
        s.skip(1)
    } else {
        s
    };
    assert(body =~= c@.skip(start as int));
    let mut i: usize = start;
    let mut v: u64 = 0;
    let mut over = false;
    while i < n && is_digit_char(c[i])
        invariant
            n == c@.len(),
            start <= i <= n,
            body =~= c@.skip(start as int),
            forall|k: int| 0 <= k < i - start ==> is_digit(#[trigger] body[k]),
            !over ==> v == digits_val(body.take(i - start)) && v < MAGNITUDE_LIMIT * 10,
            over ==> digits_val(body.take(i - start)) >= MAGNITUDE_LIMIT,
        decreases n - i,
    {
        let ghost pre = body.take(i - start);
        let ghost next = body.take(i - start + 1);
        assert(next.drop_last() =~= pre);
        assert(next.last() == c@[i as int]);
        let d = (c[i] as u32 - 48) as u64;
        if !over {
            if v >= MAGNITUDE_LIMIT {
                over = true;
            } else {
                v = v * 10 + d;
            }
        }
        i = i + 1;
    }
    proof {
        lemma_digit_run_prefix(body, i - start);
        if i < n {
            assert(body[i - start] == c@[i as int]);
        }
        assert(digit_run(body) == i - start);
    }
    if i == start || over || v >= MAGNITUDE_LIMIT {
        return None;
    }
    assert(body.skip(i - start) =~= c@.skip(i as int));
    let x: i64 = if neg {
        -(v as i64)
    } else {
        v as i64
    };
    Some((x, i))
}

fn is_digit_char(c: char) -> (r: bool)
    ensures
        r == is_digit(c),
{
    let v = c as u32;
    48 <= v && v <= 57
}

// ---------------------------------------------------------------- tokens

/// Reads the literal `l` at the start of `s`, giving the text after it.
pub open spec fn lit(s: Seq<char>, l: Seq<char>) -> Option<Seq<char>> {
    if l.len() <= s.len() && s.take(l.len() as int) == l {
        Some(s.skip(l.len() as int))
    } else {
        None
    }
}

proof fn lemma_lit(l: Seq<char>, t: Seq<char>)
    ensures
        lit(l + t, l) == Some(t),
{
    assert((l + t).take(l.len() as int) =~= l);
    assert((l + t).skip(l.len() as int) =~= t);
}

/// Reads the literal `l` at `pos`, as `lit` says.
fn read_lit(c: &Vec<char>, pos: usize, l: &str) -> (r: Option<usize>)
    requires
        pos <= c@.len(),
    ensures
        match lit(c@.skip(pos as int), l@) {
            Some(t) => r matches Some(q) && q <= c@.len() && c@.skip(q as int) == t,
            None => r is None,
        },
{
    let n = c.len();
    let m = l.unicode_len();
    if m > n - pos {
        return None;
    }
    let ghost s = c@.skip(pos as int);
    let mut j: usize = 0;
    while j < m
        invariant
            n == c@.len(),
            m == l@.len(),
            m <= n - pos,
            s == c@.skip(pos as int),
            j <= m,
            forall|k: int| 0 <= k < j ==> s[k] == l@[k],
        decreases m - j,
    {
        if c[pos + j] != l.get_char(j) {
            assert(s.take(m as int)[j as int] != l@[j as int]);
            return None;
        }
        j = j + 1;
    }
    assert(s.take(m as int) =~= l@);
    assert(s.skip(m as int) =~= c@.skip(pos + m));
    Some(pos + m)
}

/// Reads a JSON string.
pub open spec fn parse_str(s: Seq<char>) -> Option<(Seq<char>, Seq<char>)> {
    match lit(s, seq!['"']) {
        Some(r) => unescape(r),
        None => None,
    }
}

proof fn lemma_parse_str(v: Seq<char>, t: Seq<char>)
    ensures
        parse_str(quoted(v) + t) == Some((v, t)),
{
    assert(quoted(v) + t =~= seq!['"'] + (escape(v) + seq!['"'] + t));
    lemma_lit(seq!['"'], escape(v) + seq!['"'] + t);
    lemma_unescape_escape(v, t);
}

fn read_str(c: &Vec<char>, pos: usize) -> (r: Option<(String, usize)>)
    requires
        pos <= c@.len(),
    ensures
        match parse_str(c@.skip(pos as int)) {
            Some((v, t)) => r matches Some((x, q)) && x@ == v && q <= c@.len() && c@.skip(q as int)
                == t,
            None => r is None,
        },
{
    proof {
        reveal_strlit("\"");
        assert("\""@ =~= seq!['"']);
    }
    match read_lit(c, pos, "\"") {
        Some(q) => read_escaped(c, q),
        None => None,
    }
}

/// Whether two texts are equal.
fn same_text(a: &str, b: &str) -> (r: bool)
    ensures
        r == (a@ == b@),
{
    let n = a.unicode_len();
    if n != b.unicode_len() {
        return false;
    }
    let mut i: usize = 0;
    while i < n
        invariant
            n == a@.len(),
            n == b@.len(),
            i <= n,
            forall|k: int| 0 <= k < i ==> a@[k] == b@[k],
        decreases n - i,
    {
        if a.get_char(i) != b.get_char(i) {
            return false;
        }
        i = i + 1;
    }
    assert(a@ =~= b@);
    true
}

pub open spec fn bool_text(b: bool) -> Seq<char> {
    if b {
        "true"@
    } else {
        "false"@
    }
}

pub open spec fn parse_bool(s: Seq<char>) -> Option<(bool, Seq<char>)> {
    match lit(s, "true"@) {
        Some(t) => Some((true, t)),
        None => match lit(s, "false"@) {
            Some(t) => Some((false, t)),
            None => None,
        },
    }
}

proof fn lemma_parse_bool(b: bool, t: Seq<char>)
    ensures
        parse_bool(bool_text(b) + t) == Some((b, t)),
{
    reveal_strlit("true");
    reveal_strlit("false");
    lemma_lit(bool_text(b), t);
    if !b {
        assert((bool_text(b) + t).take(4)[0] != "true"@[0]);
    }
}

fn read_bool(c: &Vec<char>, pos: usize) -> (r: Option<(bool, usize)>)
    requires
        pos <= c@.len(),
    ensures
        match parse_bool(c@.skip(pos as int)) {
            Some((v, t)) => r matches Some((x, q)) && x == v && q <= c@.len() && c@.skip(q as int)
                == t,
            None => r is None,
        },
{
    match read_lit(c, pos, "true") {
        Some(q) => Some((true, q)),
        None => match read_lit(c, pos, "false") {
            Some(q) => Some((false, q)),
            None => None,
        },
    }
}

fn push_bool(out: &mut String, b: bool)
    ensures
        final(out)@ == old(out)@ + bool_text(b),
{
    if b {
        out.append("true");
    } else {
        out.append("false");
    }
}

// ---------------------------------------------------------------- values

pub open spec fn source_tag(v: SourceView) -> Seq<char> {
    match v {
        SourceView::Raw(_) => "Raw"@,
        SourceView::EmojiChar(_) => "EmojiChar"@,
        SourceView::EmojiName(_) => "EmojiName"@,
    }
}

pub open spec fn source_text(v: SourceView) -> Seq<char> {
    match v {
        SourceView::Raw(x) => x,
        SourceView::EmojiChar(x) => x,
        SourceView::EmojiName(x) => x,
    }
}

/// A source as a one-key object, the key naming its kind.
pub open spec fn source_json(v: SourceView) -> Seq<char> {
    "{"@ + quoted(source_tag(v)) + ":"@ + quoted(source_text(v)) + "}"@
}

pub open spec fn parse_source(s: Seq<char>) -> Option<(SourceView, Seq<char>)> {
    match lit(s, "{"@) {
        None => None,
        Some(s1) => match parse_str(s1) {
            None => None,
            Some((tag, s2)) => match lit(s2, ":"@) {
                None => None,
                Some(s3) => match parse_str(s3) {
                    None => None,
                    Some((text, s4)) => match lit(s4, "}"@) {
                        None => None,
                        Some(s5) => if tag == "Raw"@ {
                            Some((SourceView::Raw(text), s5))
                        } else if tag == "EmojiChar"@ {
                            Some((SourceView::EmojiChar(text), s5))
                        } else if tag == "EmojiName"@ {
                            Some((SourceView::EmojiName(text), s5))
                        } else {
                            None
                        },
                    },
                },
            },
        },
    }
}

proof fn lemma_parse_source(v: SourceView, t: Seq<char>)
    ensures
        parse_source(source_json(v) + t) == Some((v, t)),
{
    reveal_strlit("Raw");
    reveal_strlit("EmojiChar");
    reveal_strlit("EmojiName");
    let tag = source_tag(v);
    let text = source_text(v);
    let s4 = "}"@ + t;
    let s3 = quoted(text) + s4;
    let s2 = ":"@ + s3;
    let s1 = quoted(tag) + s2;
    assert(source_json(v) + t =~= "{"@ + s1);
    lemma_lit("{"@, s1);
    lemma_parse_str(tag, s2);
    lemma_lit(":"@, s3);
    lemma_parse_str(text, s4);
    lemma_lit("}"@, t);
    assert("EmojiChar"@[5] != "EmojiName"@[5]);
}

fn push_source(out: &mut String, v: &SerializableSvgSource)
    ensures
        final(out)@ == old(out)@ + source_json(v@),
{
    let ghost start = out@;
    out.append("{");
    let text: &String = match v {
        SerializableSvgSource::Raw { markup } => {
            push_quoted(out, "Raw");
            markup
        },
        SerializableSvgSource::EmojiChar { grapheme } => {
            push_quoted(out, "EmojiChar");
            grapheme
        },
        SerializableSvgSource::EmojiName { identifier } => {
            push_quoted(out, "EmojiName");
            identifier
        },
    };
    out.append(":");
    push_quoted(out, text.as_str());
    out.append("}");
    assert(out@ =~= start + source_json(v@));
}

fn read_source(c: &Vec<char>, pos: usize) -> (r: Option<(SerializableSvgSource, usize)>)
    requires
        pos <= c@.len(),
    ensures
        match parse_source(c@.skip(pos as int)) {
            Some((v, t)) => r matches Some((x, q)) && x@ == v && q <= c@.len() && c@.skip(q as int)
                == t,
            None => r is None,
        },
{
    let at1 = match read_lit(c, pos, "{") {
        Some(q) => q,
        None => return None,
    };
    let (tag, at2) = match read_str(c, at1) {
        Some(x) => x,
        None => return None,
    };
    let at3 = match read_lit(c, at2, ":") {
        Some(q) => q,
        None => return None,
    };
    let (text, at4) = match read_str(c, at3) {
        Some(x) => x,
        None => return None,
    };
    let at5 = match read_lit(c, at4, "}") {
        Some(q) => q,
        None => return None,
    };
    if same_text(tag.as_str(), "Raw") {
        Some((SerializableSvgSource::Raw { markup: text }, at5))
    } else if same_text(tag.as_str(), "EmojiChar") {
        Some((SerializableSvgSource::EmojiChar { grapheme: text }, at5))
    } else if same_text(tag.as_str(), "EmojiName") {
        Some((SerializableSvgSource::EmojiName { identifier: text }, at5))
    } else {
        None
    }
}

pub open spec fn position_name(p: SerializablePosition) -> Seq<char> {
    match p {
        SerializablePosition::BottomLeft => "BottomLeft"@,
        SerializablePosition::BottomRight => "BottomRight"@,
        SerializablePosition::TopLeft => "TopLeft"@,
        SerializablePosition::TopRight => "TopRight"@,
        SerializablePosition::Center => "Center"@,
    }
}

pub open spec fn parse_position(s: Seq<char>) -> Option<(SerializablePosition, Seq<char>)> {
    match parse_str(s) {
        None => None,
        Some((n, t)) => if n == "BottomLeft"@ {
            Some((SerializablePosition::BottomLeft, t))
        } else if n == "BottomRight"@ {
            Some((SerializablePosition::BottomRight, t))
        } else if n == "TopLeft"@ {
            Some((SerializablePosition::TopLeft, t))
        } else if n == "TopRight"@ {
            Some((SerializablePosition::TopRight, t))
        } else if n == "Center"@ {
            Some((SerializablePosition::Center, t))
        } else {
            None
        },
    }
}

proof fn lemma_parse_position(p: SerializablePosition, t: Seq<char>)
    ensures
        parse_position(quoted(position_name(p)) + t) == Some((p, t)),
{
    reveal_strlit("BottomLeft");
    reveal_strlit("BottomRight");
    reveal_strlit("TopLeft");
    reveal_strlit("TopRight");
    reveal_strlit("Center");
    lemma_parse_str(position_name(p), t);
}

fn position_str(p: SerializablePosition) -> (r: &'static str)
    ensures
        r@ == position_name(p),
{
    match p {
        SerializablePosition::BottomLeft => "BottomLeft",
        SerializablePosition::BottomRight => "BottomRight",
        SerializablePosition::TopLeft => "TopLeft",
        SerializablePosition::TopRight => "TopRight",
        SerializablePosition::Center => "Center",
    }
}

fn read_position(c: &Vec<char>, pos: usize) -> (r: Option<(SerializablePosition, usize)>)
    requires
        pos <= c@.len(),
    ensures
        match parse_position(c@.skip(pos as int)) {
            Some((v, t)) => r matches Some((x, q)) && x == v && q <= c@.len() && c@.skip(q as int)
                == t,
            None => r is None,
        },
{
    let (n, q) = match read_str(c, pos) {
        Some(x) => x,
        None => return None,
    };
    let s = n.as_str();
    if same_text(s, "BottomLeft") {
        Some((SerializablePosition::BottomLeft, q))
    } else if same_text(s, "BottomRight") {
        Some((SerializablePosition::BottomRight, q))
    } else if same_text(s, "TopLeft") {
        Some((SerializablePosition::TopLeft, q))
    } else if same_text(s, "TopRight") {
        Some((SerializablePosition::TopRight, q))
    } else if same_text(s, "Center") {
        Some((SerializablePosition::Center, q))
    } else {
        None
    }
}

/// Reads an integer in the range of `i32`.
pub open spec fn parse_i32(s: Seq<char>) -> Option<(i32, Seq<char>)> {
    match parse_int(s) {
        Some((v, t)) => if i32::MIN <= v <= i32::MAX {
            Some((v as i32, t))
        } else {
            None
        },
        None => None,
    }
}

fn read_i32(c: &Vec<char>, pos: usize) -> (r: Option<(i32, usize)>)
    requires
        pos <= c@.len(),
    ensures
        match parse_i32(c@.skip(pos as int)) {
            Some((v, t)) => r matches Some((x, q)) && x == v && q <= c@.len() && c@.skip(q as int)
                == t,
            None => r is None,
        },
{
    match read_int(c, pos) {
        Some((v, q)) => if i32::MIN as i64 <= v && v <= i32::MAX as i64 {
            Some((v as i32, q))
        } else {
            None
        },
        None => None,
    }
}

proof fn lemma_parse_i32(v: i32, t: Seq<char>)
    requires
        t.len() == 0 || !is_digit(t[0]),
    ensures
        parse_i32(int_text(v as int) + t) == Some((v, t)),
{
    lemma_parse_int_text(v as int, t);
}

pub open spec fn hsl_json(h: HslMutationSettings) -> Seq<char> {
    "{\"hue_shift\":"@ + int_text(h.hue_shift as int) + ",\"saturation_shift\":"@ + int_text(
        h.saturation_shift as int,
    ) + ",\"lightness_shift\":"@ + int_text(h.lightness_shift as int) + "}"@
}

pub open spec fn parse_hsl(s: Seq<char>) -> Option<(HslMutationSettings, Seq<char>)> {
    match lit(s, "{\"hue_shift\":"@) {
        None => None,
        Some(s1) => match parse_i32(s1) {
            None => None,
            Some((h, s2)) => match lit(s2, ",\"saturation_shift\":"@) {
                None => None,
                Some(s3) => match parse_i32(s3) {
                    None => None,
                    Some((sat, s4)) => match lit(s4, ",\"lightness_shift\":"@) {
                        None => None,
                        Some(s5) => match parse_i32(s5) {
                            None => None,
                            Some((l, s6)) => match lit(s6, "}"@) {
                                None => None,
                                Some(s7) => Some(
                                    (
                                        HslMutationSettings {
                                            hue_shift: h,
                                            saturation_shift: sat,
                                            lightness_shift: l,
                                        },
                                        s7,
                                    ),
                                ),
                            },
                        },
                    },
                },
            },
        },
    }
}

proof fn lemma_parse_hsl(h: HslMutationSettings, t: Seq<char>)
    ensures
        parse_hsl(hsl_json(h) + t) == Some((h, t)),
{
    reveal_strlit(",\"saturation_shift\":");
    reveal_strlit(",\"lightness_shift\":");
    reveal_strlit("}");
    let s6 = "}"@ + t;
    let s5 = int_text(h.lightness_shift as int) + s6;
    let s4 = ",\"lightness_shift\":"@ + s5;
    let s3 = int_text(h.saturation_shift as int) + s4;
    let s2 = ",\"saturation_shift\":"@ + s3;
    let s1 = int_text(h.hue_shift as int) + s2;
    assert(hsl_json(h) + t =~= "{\"hue_shift\":"@ + s1);
    lemma_lit("{\"hue_shift\":"@, s1);
    lemma_parse_i32(h.hue_shift, s2);
    lemma_lit(",\"saturation_shift\":"@, s3);
    lemma_parse_i32(h.saturation_shift, s4);
    lemma_lit(",\"lightness_shift\":"@, s5);
    lemma_parse_i32(h.lightness_shift, s6);
    lemma_lit("}"@, t);
}

fn push_hsl(out: &mut String, h: &HslMutationSettings)
    ensures
        final(out)@ == old(out)@ + hsl_json(*h),
{
    let ghost start = out@;
    out.append("{\"hue_shift\":");
    push_int(out, h.hue_shift as i64);
    out.append(",\"saturation_shift\":");
    push_int(out, h.saturation_shift as i64);
    out.append(",\"lightness_shift\":");
    push_int(out, h.lightness_shift as i64);
    out.append("}");
    assert(out@ =~= start + hsl_json(*h));
}

fn read_hsl(c: &Vec<char>, pos: usize) -> (r: Option<(HslMutationSettings, usize)>)
    requires
        pos <= c@.len(),
    ensures
        match parse_hsl(c@.skip(pos as int)) {
            Some((v, t)) => r matches Some((x, q)) && x == v && q <= c@.len() && c@.skip(q as int)
                == t,
            None => r is None,
        },
{
    let at1 = match read_lit(c, pos, "{\"hue_shift\":") {
        Some(q) => q,
        None => return None,
    };
    let (hue_shift, at2) = match read_i32(c, at1) {
        Some(x) => x,
        None => return None,
    };
    let at3 = match read_lit(c, at2, ",\"saturation_shift\":") {
        Some(q) => q,
        None => return None,
    };
    let (saturation_shift, at4) = match read_i32(c, at3) {
        Some(x) => x,
        None => return None,
    };
    let at5 = match read_lit(c, at4, ",\"lightness_shift\":") {
        Some(q) => q,
        None => return None,
    };
    let (lightness_shift, at6) = match read_i32(c, at5) {
        Some(x) => x,
        None => return None,
    };
    let at7 = match read_lit(c, at6, "}") {
        Some(q) => q,
        None => return None,
    };
    Some((HslMutationSettings { hue_shift, saturation_shift, lightness_shift }, at7))
}

/// Reads a scale in thousandths: an integer in `1..=1000`.
pub open spec fn parse_scale(s: Seq<char>) -> Option<(nat, Seq<char>)> {
    match parse_int(s) {
        Some((v, t)) => if 1 <= v <= SCALE_FULL {
            Some((v as nat, t))
        } else {
            None
        },
        None => None,
    }
}

fn read_scale(c: &Vec<char>, pos: usize) -> (r: Option<(Scale, usize)>)
    requires
        pos <= c@.len(),
    ensures
        match parse_scale(c@.skip(pos as int)) {
            Some((v, t)) => r matches Some((x, q)) && x.value() == v && q <= c@.len() && c@.skip(
                q as int,
            ) == t,
            None => r is None,
        },
{
    match read_int(c, pos) {
        Some((v, q)) => if 1 <= v && v <= SCALE_FULL as i64 {
            match Scale::new(v as u32) {
                Ok(s) => Some((s, q)),
                Err(_) => None,
            }
        } else {
            None
        },
        None => None,
    }
}

pub open spec fn decal_json(d: DecalView) -> Seq<char> {
    "{\"source\":"@ + source_json(d.source) + ",\"scale\":"@ + int_text(d.scale as int)
        + ",\"enabled\":"@ + bool_text(d.enabled) + "}"@
}

pub open spec fn parse_decal(s: Seq<char>) -> Option<(DecalView, Seq<char>)> {
    match lit(s, "{\"source\":"@) {
        None => None,
        Some(s1) => match parse_source(s1) {
            None => None,
            Some((source, s2)) => match lit(s2, ",\"scale\":"@) {
                None => None,
                Some(s3) => match parse_scale(s3) {
                    None => None,
                    Some((scale, s4)) => match lit(s4, ",\"enabled\":"@) {
                        None => None,
                        Some(s5) => match parse_bool(s5) {
                            None => None,
                            Some((enabled, s6)) => match lit(s6, "}"@) {
                                None => None,
                                Some(s7) => Some((DecalView { source, scale, enabled }, s7)),
                            },
                        },
                    },
                },
            },
        },
    }
}

proof fn lemma_parse_decal(d: DecalView, t: Seq<char>)
    requires
        1 <= d.scale <= SCALE_FULL,
    ensures
        parse_decal(decal_json(d) + t) == Some((d, t)),
{
    reveal_strlit(",\"enabled\":");
    let s6 = "}"@ + t;
    let s5 = bool_text(d.enabled) + s6;
    let s4 = ",\"enabled\":"@ + s5;
    let s3 = int_text(d.scale as int) + s4;
    let s2 = ",\"scale\":"@ + s3;
    let s1 = source_json(d.source) + s2;
    assert(decal_json(d) + t =~= "{\"source\":"@ + s1);
    lemma_lit("{\"source\":"@, s1);
    lemma_parse_source(d.source, s2);
    lemma_lit(",\"scale\":"@, s3);
    lemma_parse_int_text(d.scale as int, s4);
    lemma_lit(",\"enabled\":"@, s5);
    lemma_parse_bool(d.enabled, s6);
    lemma_lit("}"@, t);
}

fn push_decal(out: &mut String, d: &DecalSettings)
    ensures
        final(out)@ == old(out)@ + decal_json(d@),
{
    let ghost start = out@;
    out.append("{\"source\":");
    push_source(out, &d.source);
    out.append(",\"scale\":");
    push_int(out, d.scale.thousandths() as i64);
    out.append(",\"enabled\":");
    push_bool(out, d.enabled);
    out.append("}");
    assert(out@ =~= start + decal_json(d@));
}

fn read_decal(c: &Vec<char>, pos: usize) -> (r: Option<(DecalSettings, usize)>)
    requires
        pos <= c@.len(),
    ensures
        match parse_decal(c@.skip(pos as int)) {
            Some((v, t)) => r matches Some((x, q)) && x@ == v && q <= c@.len() && c@.skip(q as int)
                == t,
            None => r is None,
        },
{
    let at1 = match read_lit(c, pos, "{\"source\":") {
        Some(q) => q,
        None => return None,
    };
    let (source, at2) = match read_source(c, at1) {
        Some(x) => x,
        None => return None,
    };
    let at3 = match read_lit(c, at2, ",\"scale\":") {
        Some(q) => q,
        None => return None,
    };
    let (scale, at4) = match read_scale(c, at3) {
        Some(x) => x,
        None => return None,
    };
    let at5 = match read_lit(c, at4, ",\"enabled\":") {
        Some(q) => q,
        None => return None,
    };
    let (enabled, at6) = match read_bool(c, at5) {
        Some(x) => x,
        None => return None,
    };
    let at7 = match read_lit(c, at6, "}") {
        Some(q) => q,
        None => return None,
    };
    Some((DecalSettings { source, scale, enabled }, at7))
}

pub open spec fn overlay_json(o: OverlayView) -> Seq<char> {
    "{\"source\":"@ + source_json(o.source) + ",\"position\":"@ + quoted(position_name(o.position))
        + ",\"scale\":"@ + int_text(o.scale as int) + ",\"enabled\":"@ + bool_text(o.enabled)
        + "}"@
}

pub open spec fn parse_overlay(s: Seq<char>) -> Option<(OverlayView, Seq<char>)> {
    match lit(s, "{\"source\":"@) {
        None => None,
        Some(s1) => match parse_source(s1) {
            None => None,
            Some((source, s2)) => match lit(s2, ",\"position\":"@) {
                None => None,
                Some(s3) => match parse_position(s3) {
                    None => None,
                    Some((position, s4)) => match lit(s4, ",\"scale\":"@) {
                        None => None,
                        Some(s5) => match parse_scale(s5) {
                            None => None,
                            Some((scale, s6)) => match lit(s6, ",\"enabled\":"@) {
                                None => None,
                                Some(s7) => match parse_bool(s7) {
                                    None => None,
                                    Some((enabled, s8)) => match lit(s8, "}"@) {
                                        None => None,
                                        Some(s9) => Some(
                                            (OverlayView { source, position, scale, enabled }, s9),
                                        ),
                                    },
                                },
                            },
                        },
                    },
                },
            },
        },
    }
}

proof fn lemma_parse_overlay(o: OverlayView, t: Seq<char>)
    requires
        1 <= o.scale <= SCALE_FULL,
    ensures
        parse_overlay(overlay_json(o) + t) == Some((o, t)),
{
    reveal_strlit(",\"enabled\":");
    let s8 = "}"@ + t;
    let s7 = bool_text(o.enabled) + s8;
    let s6 = ",\"enabled\":"@ + s7;
    let s5 = int_text(o.scale as int) + s6;
    let s4 = ",\"scale\":"@ + s5;
    let s3 = quoted(position_name(o.position)) + s4;
    let s2 = ",\"position\":"@ + s3;
    let s1 = source_json(o.source) + s2;
    assert(overlay_json(o) + t =~= "{\"source\":"@ + s1);
    lemma_lit("{\"source\":"@, s1);
    lemma_parse_source(o.source, s2);
    lemma_lit(",\"position\":"@, s3);
    lemma_parse_position(o.position, s4);
    lemma_lit(",\"scale\":"@, s5);
    lemma_parse_int_text(o.scale as int, s6);
    lemma_lit(",\"enabled\":"@, s7);
    lemma_parse_bool(o.enabled, s8);
    lemma_lit("}"@, t);
}

fn push_overlay(out: &mut String, o: &OverlaySettings)
    ensures
        final(out)@ == old(out)@ + overlay_json(o@),
{
    let ghost start = out@;
    out.append("{\"source\":");
    push_source(out, &o.source);
    out.append(",\"position\":");
    push_quoted(out, position_str(o.position));
    out.append(",\"scale\":");
    push_int(out, o.scale.thousandths() as i64);
    out.append(",\"enabled\":");
    push_bool(out, o.enabled);
    out.append("}");
    assert(out@ =~= start + overlay_json(o@));
}

fn read_overlay(c: &Vec<char>, pos: usize) -> (r: Option<(OverlaySettings, usize)>)
    requires
        pos <= c@.len(),
    ensures
        match parse_overlay(c@.skip(pos as int)) {
            Some((v, t)) => r matches Some((x, q)) && x@ == v && q <= c@.len() && c@.skip(q as int)
                == t,
            None => r is None,
        },
{
    let at1 = match read_lit(c, pos, "{\"source\":") {
        Some(q) => q,
        None => return None,
    };
    let (source, at2) = match read_source(c, at1) {
        Some(x) => x,
        None => return None,
    };
    let at3 = match read_lit(c, at2, ",\"position\":") {
        Some(q) => q,
        None => return None,
    };
    let (position, at4) = match read_position(c, at3) {
        Some(x) => x,
        None => return None,
    };
    let at5 = match read_lit(c, at4, ",\"scale\":") {
        Some(q) => q,
        None => return None,
    };
    let (scale, at6) = match read_scale(c, at5) {
        Some(x) => x,
        None => return None,
    };
    let at7 = match read_lit(c, at6, ",\"enabled\":") {
        Some(q) => q,
        None => return None,
    };
    let (enabled, at8) = match read_bool(c, at7) {
        Some(x) => x,
        None => return None,
    };
    let at9 = match read_lit(c, at8, "}") {
        Some(q) => q,
        None => return None,
    };
    Some((OverlaySettings { source, position, scale, enabled }, at9))
}

// ---------------------------------------------------------------- profile

pub open spec fn opt_hsl_json(v: Option<HslMutationSettings>) -> Seq<char> {
    match v {
        Some(x) => hsl_json(x),
        None => "null"@,
    }
}

/// Reads `null` as `None`, else a value as `parse_hsl` says.
pub open spec fn parse_opt_hsl(s: Seq<char>) -> Option<(Option<HslMutationSettings>, Seq<char>)> {
    match lit(s, "null"@) {
        Some(t) => Some((None, t)),
        None => match parse_hsl(s) {
            Some((x, t)) => Some((Some(x), t)),
            None => None,
        },
    }
}

proof fn lemma_parse_opt_hsl(v: Option<HslMutationSettings>, t: Seq<char>)
    ensures
        parse_opt_hsl(opt_hsl_json(v) + t) == Some((v, t)),
{
    reveal_strlit("null");
    match v {
        Some(x) => {
            reveal_strlit("{\"hue_shift\":");
            lemma_parse_hsl(x, t);
            let s = hsl_json(x) + t;
            assert(s[0] == '{');
            if 4 <= s.len() {
                assert(s.take(4)[0] != "null"@[0]);
            }
        },
        None => lemma_lit("null"@, t),
    }
}

pub open spec fn opt_decal_json(v: Option<DecalView>) -> Seq<char> {
    match v {
        Some(x) => decal_json(x),
        None => "null"@,
    }
}

/// Reads `null` as `None`, else a value as `parse_decal` says.
pub open spec fn parse_opt_decal(s: Seq<char>) -> Option<(Option<DecalView>, Seq<char>)> {
    match lit(s, "null"@) {
        Some(t) => Some((None, t)),
        None => match parse_decal(s) {
            Some((x, t)) => Some((Some(x), t)),
            None => None,
        },
    }
}

proof fn lemma_parse_opt_decal(v: Option<DecalView>, t: Seq<char>)
    requires
        v matches Some(x) ==> 1 <= x.scale <= SCALE_FULL,
    ensures
        parse_opt_decal(opt_decal_json(v) + t) == Some((v, t)),
{
    reveal_strlit("null");
    match v {
        Some(x) => {
            reveal_strlit("{\"source\":");
            lemma_parse_decal(x, t);
            let s = decal_json(x) + t;
            assert(s[0] == '{');
            if 4 <= s.len() {
                assert(s.take(4)[0] != "null"@[0]);
            }
        },
        None => lemma_lit("null"@, t),
    }
}

pub open spec fn opt_overlay_json(v: Option<OverlayView>) -> Seq<char> {
    match v {
        Some(x) => overlay_json(x),
        None => "null"@,
    }
}

/// Reads `null` as `None`, else a value as `parse_overlay` says.
pub open spec fn parse_opt_overlay(s: Seq<char>) -> Option<(Option<OverlayView>, Seq<char>)> {
    match lit(s, "null"@) {
        Some(t) => Some((None, t)),
        None => match parse_overlay(s) {
            Some((x, t)) => Some((Some(x), t)),
            None => None,
        },
    }
}

proof fn lemma_parse_opt_overlay(v: Option<OverlayView>, t: Seq<char>)
    requires
        v matches Some(x) ==> 1 <= x.scale <= SCALE_FULL,
    ensures
        parse_opt_overlay(opt_overlay_json(v) + t) == Some((v, t)),
{
    reveal_strlit("null");
    match v {
        Some(x) => {
            reveal_strlit("{\"source\":");
            lemma_parse_overlay(x, t);
            let s = overlay_json(x) + t;
            assert(s[0] == '{');
            if 4 <= s.len() {
                assert(s.take(4)[0] != "null"@[0]);
            }
        },
        None => lemma_lit("null"@, t),
    }
}

/// The stable JSON text of a profile: its three parts under fixed keys, in a
/// fixed order, an unset part as `null`, without whitespace.
pub open spec fn profile_json(p: ProfileView) -> Seq<char> {
    "{\"hsl_mutation\":"@ + opt_hsl_json(p.hsl_mutation) + ",\"decal\":"@ + opt_decal_json(p.decal)
        + ",\"overlay\":"@ + opt_overlay_json(p.overlay) + "}"@
}

/// Reads a profile's JSON text, the whole of `s`.
pub open spec fn parse_profile(s: Seq<char>) -> Option<ProfileView> {
    match lit(s, "{\"hsl_mutation\":"@) {
        None => None,
        Some(s1) => match parse_opt_hsl(s1) {
            None => None,
            Some((hsl_mutation, s2)) => match lit(s2, ",\"decal\":"@) {
                None => None,
                Some(s3) => match parse_opt_decal(s3) {
                    None => None,
                    Some((decal, s4)) => match lit(s4, ",\"overlay\":"@) {
                        None => None,
                        Some(s5) => match parse_opt_overlay(s5) {
                            None => None,
                            Some((overlay, s6)) => if s6 == "}"@ {
                                Some(ProfileView { hsl_mutation, decal, overlay })
                            } else {
                                None
                            },
                        },
                    },
                },
            },
        },
    }
}

/// Why a profile could not be read from JSON text.
#[derive(Debug, Clone, Copy, PartialEq, Eq)]
pub enum ProfileJsonError {
    /// The text is not the JSON form of a profile.
    Malformed,
}

/// Serializing a valid profile and reading it back gives the same profile.
#[verifier::rlimit(100)]
pub proof fn lemma_profile_json_round_trip(p: ProfileView)
    requires
        crate::profile::profile_view_valid(p),
    ensures
        parse_profile(profile_json(p)) == Some(p),
{
    let s6 = "}"@;
    let s5 = opt_overlay_json(p.overlay) + s6;
    let s4 = ",\"overlay\":"@ + s5;
    let s3 = opt_decal_json(p.decal) + s4;
    let s2 = ",\"decal\":"@ + s3;
    let s1 = opt_hsl_json(p.hsl_mutation) + s2;
    assert(profile_json(p) =~= "{\"hsl_mutation\":"@ + s1);
    lemma_lit("{\"hsl_mutation\":"@, s1);
    lemma_parse_opt_hsl(p.hsl_mutation, s2);
    lemma_lit(",\"decal\":"@, s3);
    lemma_parse_opt_decal(p.decal, s4);
    lemma_lit(",\"overlay\":"@, s5);
    lemma_parse_opt_overlay(p.overlay, s6);
    let r1 = lit(profile_json(p), "{\"hsl_mutation\":"@);
    assert(r1 == Some(s1));
    assert(parse_opt_hsl(s1) == Some((p.hsl_mutation, s2)));
    assert(lit(s2, ",\"decal\":"@) == Some(s3));
    assert(parse_opt_decal(s3) == Some((p.decal, s4)));
    assert(lit(s4, ",\"overlay\":"@) == Some(s5));
    assert(parse_opt_overlay(s5) == Some((p.overlay, s6)));
}

fn chars_of(s: &str) -> (r: Vec<char>)
    ensures
        r@ == s@,
{
    let n = s.unicode_len();
    let mut v: Vec<char> = Vec::new();
    let mut i: usize = 0;
    while i < n
        invariant
            n == s@.len(),
            i <= n,
            v@ == s@.take(i as int),
        decreases n - i,
    {
        v.push(s.get_char(i));
        assert(s@.take(i + 1) =~= s@.take(i as int).push(s@[i as int]));
        i = i + 1;
    }
    assert(s@.take(n as int) =~= s@);
    v
}

impl CustomizationProfile {
    /// The stable JSON text of this profile.
    pub fn to_json(&self) -> (r: String)
        ensures
            r@ == profile_json(self@),
    {
        let mut out = String::new();
        out.append("{\"hsl_mutation\":");
        match &self.hsl_mutation {
            Some(h) => push_hsl(&mut out, h),
            None => out.append("null"),
        }
        out.append(",\"decal\":");
        match &self.decal {
            Some(d) => push_decal(&mut out, d),
            None => out.append("null"),
        }
        out.append(",\"overlay\":");
        match &self.overlay {
            Some(o) => push_overlay(&mut out, o),
            None => out.append("null"),
        }
        out.append("}");
        assert(out@ =~= profile_json(self@));
        out
    }

    /// Reads a profile from its JSON text; the text must be the whole of a
    /// profile's stable form, and every scale must lie in `1..=1000`.
    pub fn from_json(s: &str) -> (r: Result<CustomizationProfile, ProfileJsonError>)
        ensures
            match parse_profile(s@) {
                Some(v) => r matches Ok(p) && p@ == v,
                None => r == Err::<CustomizationProfile, ProfileJsonError>(
                    ProfileJsonError::Malformed,
                ),
            },
    {
        let c = chars_of(s);
        assert(c@.skip(0) =~= s@);
        let at1 = match read_lit(&c, 0, "{\"hsl_mutation\":") {
            Some(q) => q,
            None => return Err(ProfileJsonError::Malformed),
        };
        let (hsl_mutation, at2) = match read_lit(&c, at1, "null") {
            Some(q) => (None, q),
            None => match read_hsl(&c, at1) {
                Some((h, q)) => (Some(h), q),
                None => return Err(ProfileJsonError::Malformed),
            },
        };
        let at3 = match read_lit(&c, at2, ",\"decal\":") {
            Some(q) => q,
            None => return Err(ProfileJsonError::Malformed),
        };
        let (decal, at4) = match read_lit(&c, at3, "null") {
            Some(q) => (None, q),
            None => match read_decal(&c, at3) {
                Some((d, q)) => (Some(d), q),
                None => return Err(ProfileJsonError::Malformed),
            },
        };
        let at5 = match read_lit(&c, at4, ",\"overlay\":") {
            Some(q) => q,
            None => return Err(ProfileJsonError::Malformed),
        };
        let (overlay, at6) = match read_lit(&c, at5, "null") {
            Some(q) => (None, q),
            None => match read_overlay(&c, at5) {
                Some((o, q)) => (Some(o), q),
                None => return Err(ProfileJsonError::Malformed),
            },
        };
        match read_lit(&c, at6, "}") {
            Some(q) => if q == c.len() {
                proof {
                    lemma_lit_whole(c@.skip(at6 as int), "}"@);
                }
                Ok(CustomizationProfile { hsl_mutation, decal, overlay })
            } else {
                proof {
                    lemma_lit_whole(c@.skip(at6 as int), "}"@);
                }
                Err(ProfileJsonError::Malformed)
            },
            None => {
                proof {
                    lemma_lit_whole(c@.skip(at6 as int), "}"@);
                }
                Err(ProfileJsonError::Malformed)
            },
        }
    }
}

/// The JSON Schema of a profile's JSON text.
pub const PROFILE_SCHEMA: &'static str = "{\"$schema\":\"http://json-schema.org/draft-07/schema#\",\"title\":\"CustomizationProfile\",\"type\":\"object\",\"additionalProperties\":false,\"required\":[\"hsl_mutation\",\"decal\",\"overlay\"],\"properties\":{\"hsl_mutation\":{\"oneOf\":[{\"type\":\"null\"},{\"$ref\":\"#/definitions/HslMutationSettings\"}]},\"decal\":{\"oneOf\":[{\"type\":\"null\"},{\"$ref\":\"#/definitions/DecalSettings\"}]},\"overlay\":{\"oneOf\":[{\"type\":\"null\"},{\"$ref\":\"#/definitions/OverlaySettings\"}]}},\"definitions\":{\"HslMutationSettings\":{\"type\":\"object\",\"additionalProperties\":false,\"required\":[\"hue_shift\",\"saturation_shift\",\"lightness_shift\"],\"properties\":{\"hue_shift\":{\"type\":\"integer\",\"format\":\"int32\"},\"saturation_shift\":{\"type\":\"integer\",\"format\":\"int32\"},\"lightness_shift\":{\"type\":\"integer\",\"format\":\"int32\"}}},\"Scale\":{\"description\":\"Thousandths of the full size\",\"type\":\"integer\",\"minimum\":1,\"maximum\":1000},\"SerializableSvgSource\":{\"oneOf\":[{\"type\":\"object\",\"additionalProperties\":false,\"required\":[\"Raw\"],\"properties\":{\"Raw\":{\"type\":\"string\"}}},{\"type\":\"object\",\"additionalProperties\":false,\"required\":[\"EmojiChar\"],\"properties\":{\"EmojiChar\":{\"type\":\"string\"}}},{\"type\":\"object\",\"additionalProperties\":false,\"required\":[\"EmojiName\"],\"properties\":{\"EmojiName\":{\"type\":\"string\"}}}]},\"SerializablePosition\":{\"type\":\"string\",\"enum\":[\"BottomLeft\",\"BottomRight\",\"TopLeft\",\"TopRight\",\"Center\"]},\"DecalSettings\":{\"type\":\"object\",\"additionalProperties\":false,\"required\":[\"source\",\"scale\",\"enabled\"],\"properties\":{\"source\":{\"$ref\":\"#/definitions/SerializableSvgSource\"},\"scale\":{\"$ref\":\"#/definitions/Scale\"},\"enabled\":{\"type\":\"boolean\"}}},\"OverlaySettings\":{\"type\":\"object\",\"additionalProperties\":false,\"required\":[\"source\",\"position\",\"scale\",\"enabled\"],\"properties\":{\"source\":{\"$ref\":\"#/definitions/SerializableSvgSource\"},\"position\":{\"$ref\":\"#/definitions/SerializablePosition\"},\"scale\":{\"$ref\":\"#/definitions/Scale\"},\"enabled\":{\"type\":\"boolean\"}}}}}";

/// The JSON Schema that describes `to_json`'s output, for outside tooling.
pub fn json_schema_string() -> (r: String)
    ensures
        r@ == PROFILE_SCHEMA@,
{
    String::from_str(PROFILE_SCHEMA)
}

proof fn lemma_lit_whole(s: Seq<char>, l: Seq<char>)
    ensures
        (s == l) <==> (lit(s, l) matches Some(t) && t.len() == 0),
{
    if s == l {
        lemma_lit(l, seq![]);
        assert(l + seq![] =~= l);
    }
    if lit(s, l) matches Some(t) && t.len() == 0 {
        assert(s =~= s.take(l.len() as int));
    }
}

} // verus!
