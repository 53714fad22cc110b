//! Decimal numbers and the parts of a line of text.

use vstd::prelude::*;

verus! {

/// The character of a decimal digit.
pub open spec fn digit(d: nat) -> char
    recommends
        d < 10,
{
    (48 + d) as char
}

/// Whether a character is a decimal digit.
pub open spec fn is_digit(c: char) -> bool {
    '0' <= c <= '9'
}

/// A number in decimal, without leading zeros.
pub open spec fn decimal(n: nat) -> Seq<char>
    decreases n,
{
    if n < 10 {
        seq![digit(n)]
    } else {
        decimal(n / 10).push(digit(n % 10))
    }
}

/// The number that a run of decimal digits denotes.
pub open spec fn decimal_value(s: Seq<char>) -> nat
    decreases s.len(),
{
    if s.len() == 0 {
        0
    } else {
        10 * decimal_value(s.drop_last()) + (s.last() as nat - 48) as nat
    }
}

/// Whether there is nothing but decimal digits.
pub open spec fn all_digits(s: Seq<char>) -> bool {
    forall|i: int| 0 <= i < s.len() ==> is_digit(#[trigger] s[i])
}

/// The number that a text denotes: decimal digits, at least one, after an optional plus sign.
pub open spec fn parsed(s: Seq<char>) -> Option<nat> {
    let digits = if s.len() > 0 && s[0] == '+' {
        s.skip(1)
    } else {
        s
    };
    if digits.len() > 0 && all_digits(digits) {
        Some(decimal_value(digits))
    } else {
        None
    }
}

/// A text of one decimal digit.
fn digit_str(d: u64) -> (r: &'static str)
    requires
        d < 10,
    ensures
        r@ == seq![digit(d as nat)],
{
    proof {
        reveal_strlit("0");
        reveal_strlit("1");
        reveal_strlit("2");
        reveal_strlit("3");
        reveal_strlit("4");
        reveal_strlit("5");
        reveal_strlit("6");
        reveal_strlit("7");
        reveal_strlit("8");
        reveal_strlit("9");
    }
    let r = if d == 0 {
        "0"
    } else if d == 1 {
        "1"
    } else if d == 2 {
        "2"
    } else if d == 3 {
        "3"
    } else if d == 4 {
        "4"
    } else if d == 5 {
        "5"
    } else if d == 6 {
        "6"
    } else if d == 7 {
        "7"
    } else if d == 8 {
        "8"
    } else {
        "9"
    };
    assert(r@ =~= seq![digit(d as nat)]);
    r
}

/// Appends a number in decimal.
pub fn push_decimal(out: &mut String, n: u64)
    ensures
        final(out)@ == old(out)@ + decimal(n as nat),
    decreases n,
{
    if n >= 10 {
        push_decimal(out, n / 10);
    }
    out.append(digit_str(n % 10));
    assert(out@ =~= old(out)@ + decimal(n as nat));
}

/// The number that a text denotes, if it denotes one up to 65535.
pub fn parse_u16(s: &str) -> (r: Option<u16>)
    ensures
        match r {
            Some(v) => parsed(s@) == Some(v as nat),
            None => parsed(s@) is None || parsed(s@)->0 > u16::MAX,
        },
{
    let n: usize = s.unicode_len();
    let mut i: usize = 0;
    if n > 0 && s.get_char(0) == '+' {
        i = 1;
    }
    let ghost digits = s@.skip(i as int);
    if i == 0 {
        assert(digits =~= s@);
    }
    if i == n {
        assert(digits.len() == 0);
        return None;
    }
    let ghost start = i as int;
    let mut v: u32 = 0;
    let mut over: bool = false;
    assert(digits.take(0) =~= Seq::empty());
    while i < n
        invariant
            0 <= start <= i <= n,
            n == s@.len(),
            digits == s@.skip(start),
            digits.len() > 0,
            parsed(s@) == (if all_digits(digits) {
                Some(decimal_value(digits))
            } else {
                None
            }),
            forall|j: int| 0 <= j < i - start ==> is_digit(#[trigger] digits[j]),
            !over ==> v <= u16::MAX && v as nat == decimal_value(digits.take(i - start)),
            over ==> decimal_value(digits.take(i - start)) > u16::MAX,
        decreases n - i,
    {
        let c: char = s.get_char(i);
        assert(digits[i - start] == c);
        if c < '0' || c > '9' {
            return None;
        }
        proof {
            let t = digits.take(i - start + 1);
            assert(t.drop_last() =~= digits.take(i - start));
            assert(t.last() == c);
        }
        if !over {
            v = v * 10 + (c as u32 - 48);
            if v > 65535 {
                over = true;
            }
        }
        i = i + 1;
    }
    assert(digits.take(i - start) =~= digits);
    if over {
        None
    } else {
        Some(v as u16)
    }
}

/// Where the part after the last colon begins: at the start when there is no colon.
pub open spec fn after_last_colon(s: Seq<char>) -> int
    decreases s.len(),
{
    if s.len() == 0 || s.last() == ':' {
        s.len() as int
    } else {
        after_last_colon(s.drop_last())
    }
}

/// The port of an address: the number after its last colon.
pub open spec fn port_text(s: Seq<char>) -> Seq<char> {
    s.skip(after_last_colon(s))
}

/// The last part of a text has no colon, and a colon stands right before it unless it is all
/// there is.
pub proof fn lemma_after_last_colon(s: Seq<char>)
    ensures
        0 <= after_last_colon(s) <= s.len(),
        after_last_colon(s) > 0 ==> s[after_last_colon(s) - 1] == ':',
        !port_text(s).contains(':'),
    decreases s.len(),
{
    if s.len() == 0 || s.last() == ':' {
        assert(port_text(s) =~= Seq::empty());
    } else {
        let d = s.drop_last();
        lemma_after_last_colon(d);
        let k = after_last_colon(d);
        assert(port_text(s) =~= port_text(d).push(s.last()));
        if k > 0 {
            assert(s[k - 1] == d[k - 1]);
        }
        assert forall|i: int| 0 <= i < port_text(s).len() implies port_text(s)[i] != ':' by {
            if i < port_text(d).len() {
                assert(port_text(d).contains(port_text(d)[i]));
            }
        }
    }
}

/// The port of an address, if the address ends in one.
pub fn port_of(ip: &str) -> (r: Option<u16>)
    ensures
        match r {
            Some(v) => parsed(port_text(ip@)) == Some(v as nat),
            None => parsed(port_text(ip@)) is None || parsed(port_text(ip@))->0 > u16::MAX,
        },
{
    let n: usize = ip.unicode_len();
    let mut i: usize = n;
    assert(ip@.take(n as int) =~= ip@);
    while i > 0 && ip.get_char(i - 1) != ':'
        invariant
            i <= n,
            n == ip@.len(),
            after_last_colon(ip@) == after_last_colon(ip@.take(i as int)),
        decreases i,
    {
        proof {
            let t = ip@.take(i as int);
            assert(t.drop_last() =~= ip@.take(i - 1));
            assert(t.last() == ip@[i - 1]);
        }
        i = i - 1;
    }
    proof {
        let t = ip@.take(i as int);
        assert(after_last_colon(t) == i);
        assert(ip@.subrange(i as int, n as int) =~= port_text(ip@));
    }
    parse_u16(ip.substring_char(i, n))
}

/// Whether two texts are the same.
pub fn same_text(a: &str, b: &str) -> (r: bool)
    ensures
        r == (a@ == b@),
{
    let n: usize = a.unicode_len();
    if n != b.unicode_len() {
        return false;
    }
    let mut i: usize = 0;
    while i < n
        invariant
            i <= n,
            n == a@.len(),
            n == b@.len(),
            forall|j: int| 0 <= j < i ==> a@[j] == b@[j],
        decreases n - i,
    {
        if a.get_char(i) != b.get_char(i) {
            return false;
        }
        i = i + 1;
    }
    assert(a@ =~= b@);
    true
}

/// Whether a character is white space.
pub open spec fn is_white(c: char) -> bool {
    ||| '\u{9}' <= c <= '\u{d}'
    ||| c == ' '
    ||| c == '\u{85}'
    ||| c == '\u{a0}'
    ||| c == '\u{1680}'
    ||| '\u{2000}' <= c <= '\u{200a}'
    ||| '\u{2028}' <= c <= '\u{2029}'
    ||| c == '\u{202f}'
    ||| c == '\u{205f}'
    ||| c == '\u{3000}'
}

/// Whether a character is white space.
fn white(c: char) -> (r: bool)
    ensures
        r == is_white(c),
{
    ('\u{9}' <= c && c <= '\u{d}') || c == ' ' || c == '\u{85}' || c == '\u{a0}' || c == '\u{1680}'
        || ('\u{2000}' <= c && c <= '\u{200a}') || ('\u{2028}' <= c && c <= '\u{2029}') || c
        == '\u{202f}' || c == '\u{205f}' || c == '\u{3000}'
}

/// A text without the white space at its start.
pub open spec fn trim_start(s: Seq<char>) -> Seq<char>
    decreases s.len(),
{
    if s.len() > 0 && is_white(s[0]) {
        trim_start(s.skip(1))
    } else {
        s
    }
}

/// A text without the white space at its end.
pub open spec fn trim_end(s: Seq<char>) -> Seq<char>
    decreases s.len(),
{
    if s.len() > 0 && is_white(s.last()) {
        trim_end(s.drop_last())
    } else {
        s
    }
}

/// A text without the white space at its start and at its end.
pub open spec fn trimmed(s: Seq<char>) -> Seq<char> {
    trim_end(trim_start(s))
}

/// The text from one place to another without the white space around it.
pub fn trim_between(s: &str, from: usize, to: usize) -> (r: &str)
    requires
        from <= to <= s@.len(),
    ensures
        r@ == trimmed(s@.subrange(from as int, to as int)),
{
    let ghost all = s@.subrange(from as int, to as int);
    let mut a: usize = from;
    assert(s@.subrange(a as int, to as int) == all);
    while a < to && white(s.get_char(a))
        invariant
            from <= a <= to <= s@.len(),
            trim_start(s@.subrange(a as int, to as int)) == trim_start(all),
        decreases to - a,
    {
        assert(s@.subrange(a as int, to as int).skip(1) =~= s@.subrange(a + 1, to as int));
        a = a + 1;
    }
    let mut b: usize = to;
    assert(trim_start(all) == s@.subrange(a as int, to as int));
    while a < b && white(s.get_char(b - 1))
        invariant
            from <= a <= b <= to <= s@.len(),
            trim_end(s@.subrange(a as int, b as int)) == trimmed(all),
        decreases b - a,
    {
        assert(s@.subrange(a as int, b as int).drop_last() =~= s@.subrange(a as int, b - 1));
        b = b - 1;
    }
    s.substring_char(a, b)
}

/// Where the first comma stands, or the length of a text that has none.
pub open spec fn first_comma(s: Seq<char>) -> int
    decreases s.len(),
{
    if s.len() == 0 || s[0] == ',' {
        0
    } else {
        1 + first_comma(s.skip(1))
    }
}

/// The first comma stands within the text.
proof fn lemma_first_comma(s: Seq<char>)
    ensures
        0 <= first_comma(s) <= s.len(),
    decreases s.len(),
{
    if s.len() > 0 && s[0] != ',' {
        lemma_first_comma(s.skip(1));
    }
}

/// The parts of a text between its commas, each without the white space around it, as far as
/// anything is left of them.
pub open spec fn comma_list(s: Seq<char>) -> Seq<Seq<char>>
    decreases s.len(),
{
    let k = first_comma(s);
    let rest = if 0 <= k < s.len() {
        comma_list(s.skip(k + 1))
    } else {
        Seq::empty()
    };
    if trimmed(s.take(k)).len() == 0 {
        rest
    } else {
        seq![trimmed(s.take(k))] + rest
    }
}

/// What texts there are, in their order.
pub open spec fn views(v: Seq<String>) -> Seq<Seq<char>> {
    v.map_values(|s: String| s@)
}

/// The parts of a text between its commas, each without the white space around it, as far as
/// anything is left of them.
pub fn split_commas(s: &str) -> (r: Vec<String>)
    ensures
        views(r@) == comma_list(s@),
{
    let n: usize = s.unicode_len();
    let mut out: Vec<String> = Vec::new();
    let mut from: usize = 0;
    assert(views(out@) =~= Seq::empty());
    assert(s@.skip(0) =~= s@);
    loop
        invariant
            from <= n,
            n == s@.len(),
            views(out@) + comma_list(s@.skip(from as int)) == comma_list(s@),
        decreases n - from,
    {
        let ghost rest = s@.skip(from as int);
        let mut to: usize = from;
        proof {
            lemma_first_comma(rest);
        }
        assert(rest.skip(0) =~= rest);
        while to < n && s.get_char(to) != ','
            invariant
                from <= to <= n,
                n == s@.len(),
                rest == s@.skip(from as int),
                first_comma(rest) == to - from + first_comma(rest.skip(to - from)),
            decreases n - to,
        {
            assert(rest.skip(to - from).skip(1) =~= rest.skip(to - from + 1));
            to = to + 1;
        }
        assert(first_comma(rest.skip(to - from)) == 0);
        assert(rest.take(to - from) =~= s@.subrange(from as int, to as int));
        let part = trim_between(s, from, to);
        let ghost before = views(out@);
        if part.unicode_len() > 0 {
            out.push(part.to_owned());
            assert(views(out@) =~= before + seq![trimmed(rest.take(to - from))]);
        }
        if to == n {
            assert(views(out@) =~= comma_list(s@));
            return out;
        }
        assert(rest.skip(to - from + 1) =~= s@.skip(to + 1));
        assert(views(out@) + comma_list(s@.skip(to + 1)) =~= before + comma_list(rest));
        from = to + 1;
    }
}

/// Whether a text has a part at a place.
pub open spec fn occurs_at(s: Seq<char>, part: Seq<char>, i: int) -> bool {
    0 <= i && i + part.len() <= s.len() && s.subrange(i, i + part.len()) == part
}

/// Whether the first place at which a text has a part is `i`.
pub open spec fn first_at(s: Seq<char>, part: Seq<char>, i: int) -> bool {
    occurs_at(s, part, i) && forall|j: int| 0 <= j < i ==> !occurs_at(s, part, j)
}

/// What follows the first occurrence of a part, without the white space around it, or nothing
/// if the part does not occur.
pub fn text_after(s: &str, part: &str) -> (r: Option<String>)
    ensures
        match r {
            Some(t) => exists|i: int| #[trigger]
                first_at(s@, part@, i) && t@ == trimmed(s@.skip(i + part@.len())),
            None => forall|i: int| !#[trigger] occurs_at(s@, part@, i),
        },
{
    let n: usize = s.unicode_len();
    let m: usize = part.unicode_len();
    if m > n {
        return None;
    }
    let mut i: usize = 0;
    while i <= n - m
        invariant
            m <= n,
            n == s@.len(),
            m == part@.len(),
            i <= n - m + 1,
            forall|j: int| 0 <= j < i ==> !#[trigger] occurs_at(s@, part@, j),
        decreases n - i,
    {
        if same_text(s.substring_char(i, i + m), part) {
            assert(first_at(s@, part@, i as int));
            assert(s@.skip(i + m) =~= s@.subrange(i + m, n as int));
            return Some(trim_between(s, i + m, n).to_owned());
        }
        if i == n - m {
            return None;
        }
        i = i + 1;
    }
    None
}

/// The address of a port on every interface.
pub open spec fn any_interface(port: nat) -> Seq<char> {
    "0.0.0.0:"@ + decimal(port)
}

/// The address of a port on this machine alone.
pub open spec fn loopback(port: nat) -> Seq<char> {
    "127.0.0.1:"@ + decimal(port)
}

/// The address of a port on this machine alone.
pub fn loopback_address(port: u16) -> (s: String)
    ensures
        s@ == loopback(port as nat),
{
    let mut s = "127.0.0.1:".to_owned();
    push_decimal(&mut s, port as u64);
    s
}

/// The address of a port on every interface.
pub fn listen_address(port: u16) -> (s: String)
    ensures
        s@ == any_interface(port as nat),
{
    let mut s = "0.0.0.0:".to_owned();
    push_decimal(&mut s, port as u64);
    s
}

/// Decimal digits read back as the number they were written from.
pub proof fn law_decimal_round_trip(n: nat)
    ensures
        parsed(decimal(n)) == Some(n),
        decimal(n).len() > 0,
        all_digits(decimal(n)),
        decimal_value(decimal(n)) == n,
    decreases n,
{
    let s = decimal(n);
    if n < 10 {
        assert(s.drop_last() =~= Seq::empty());
        assert(s.last() == digit(n));
        assert(decimal_value(Seq::empty()) == 0);
    } else {
        law_decimal_round_trip(n / 10);
        let d = decimal(n / 10);
        assert(s.drop_last() =~= d);
        assert(s.last() == digit(n % 10));
        assert forall|i: int| 0 <= i < s.len() implies is_digit(#[trigger] s[i]) by {
            if i < d.len() {
                assert(s[i] == d[i]);
            }
        }
    }
    assert(is_digit(s[0]));
}

/// No number but zero begins with a zero.
pub proof fn law_no_leading_zeros(n: nat)
    ensures
        n > 0 ==> decimal(n)[0] != '0',
        n < 10 ==> decimal(n).len() == 1,
        n >= 10 ==> decimal(n).len() == decimal(n / 10).len() + 1,
    decreases n,
{
    law_decimal_round_trip(n);
    if n >= 10 {
        law_no_leading_zeros(n / 10);
        law_decimal_round_trip(n / 10);
        assert(decimal(n)[0] == decimal(n / 10)[0]);
    }
}

/// A text denotes a number if and only if it is made of decimal digits, at least one, after an
/// optional plus sign. Each further digit is worth itself and makes the ones before it worth ten
/// times as much.
pub proof fn law_digits_denote_numbers(s: Seq<char>, c: char)
    requires
        s.len() > 0,
        forall|i: int| 0 <= i < s.len() ==> '0' <= #[trigger] s[i] <= '9',
    ensures
        parsed(s) is Some,
        '0' <= c <= '9' ==> parsed(seq![c]) == Some((c as nat - '0' as nat) as nat),
        '0' <= c <= '9' ==> parsed(s.push(c)) == Some(
            (10 * parsed(s)->0 + (c as nat - '0' as nat)) as nat,
        ),
        !('0' <= c <= '9') ==> parsed(s.push(c)) is None,
        parsed(seq!['+'] + s) == parsed(s),
        parsed(Seq::empty()) is None,
        parsed(seq!['+']) is None,
{
    let t = s.push(c);
    assert(t[0] == s[0]);
    assert(t.drop_last() =~= s);
    assert(is_digit(s[0]));
    if '0' <= c <= '9' {
        assert forall|i: int| 0 <= i < t.len() implies is_digit(#[trigger] t[i]) by {
            if i < s.len() {
                assert(t[i] == s[i]);
            }
        }
        let one = seq![c];
        assert(one.drop_last() =~= Seq::empty());
        assert(one[0] == c);
        reveal_with_fuel(decimal_value, 2);
        assert(all_digits(one));
    } else {
        assert(!is_digit(t[s.len() as int]));
    }
    let u = seq!['+'] + s;
    assert(u.skip(1) =~= s);
    assert(u[0] == '+');
    assert(seq!['+'].skip(1) =~= Seq::<char>::empty());
}

/// The port of an address is what follows its last colon.
pub proof fn law_port_follows_last_colon(host: Seq<char>, port: Seq<char>)
    requires
        !port.contains(':'),
    ensures
        port_text(host + seq![':'] + port) == port,
        port_text(port) == port,
    decreases port.len(),
{
    let s = host + seq![':'] + port;
    if port.len() == 0 {
        assert(s.last() == ':');
        assert(port_text(s) =~= port);
        assert(port_text(port) =~= port);
    } else {
        let p = port.drop_last();
        let c = port.last();
        assert(port[port.len() - 1] == c);
        assert(port.contains(c));
        assert(!p.contains(':')) by {
            if p.contains(':') {
                let i = choose|i: int| 0 <= i < p.len() && p[i] == ':';
                assert(port[i] == ':');
            }
        }
        law_port_follows_last_colon(host, p);
        let t = host + seq![':'] + p;
        assert(s.drop_last() =~= t);
        assert(s.last() == c);
        lemma_after_last_colon(t);
        lemma_after_last_colon(p);
        assert(port_text(s) =~= port_text(t).push(c));
        assert(port_text(port) =~= port_text(p).push(c));
        assert(p.push(c) =~= port);
    }
}

/// The addresses of a port end in it, on every interface as on this machine alone.
pub proof fn law_address_has_its_port(port: nat)
    ensures
        parsed(port_text(any_interface(port))) == Some(port),
        parsed(port_text(loopback(port))) == Some(port),
        any_interface(port).take(8) == seq!['0', '.', '0', '.', '0', '.', '0', ':'],
        loopback(port).take(10) == seq!['1', '2', '7', '.', '0', '.', '0', '.', '1', ':'],
{
    reveal_strlit("0.0.0.0:");
    reveal_strlit("127.0.0.1:");
    law_decimal_round_trip(port);
    let d = decimal(port);
    assert(!d.contains(':')) by {
        if d.contains(':') {
            let i = choose|i: int| 0 <= i < d.len() && d[i] == ':';
            assert(is_digit(d[i]));
        }
    }
    let a = seq!['0', '.', '0', '.', '0', '.', '0'];
    let b = seq!['1', '2', '7', '.', '0', '.', '0', '.', '1'];
    law_port_follows_last_colon(a, d);
    law_port_follows_last_colon(b, d);
    assert(any_interface(port) =~= a + seq![':'] + d);
    assert(loopback(port) =~= b + seq![':'] + d);
    assert(any_interface(port).take(8) =~= seq!['0', '.', '0', '.', '0', '.', '0', ':']);
    assert(loopback(port).take(10) =~= seq!['1', '2', '7', '.', '0', '.', '0', '.', '1', ':']);
}

/// White space is what Unicode takes for it.
pub proof fn law_white_space(c: char)
    ensures
        is_white(c) <==> {
            let n = c as nat;
            ||| 0x9 <= n <= 0xd
            ||| n == 0x20
            ||| n == 0x85
            ||| n == 0xa0
            ||| n == 0x1680
            ||| 0x2000 <= n <= 0x200a
            ||| n == 0x2028
            ||| n == 0x2029
            ||| n == 0x202f
            ||| n == 0x205f
            ||| n == 0x3000
        },
{
}

/// Trimming takes the white space at both ends and nothing else.
pub proof fn law_trimming(a: Seq<char>, s: Seq<char>, b: Seq<char>)
    requires
        forall|i: int| 0 <= i < a.len() ==> is_white(#[trigger] a[i]),
        forall|i: int| 0 <= i < b.len() ==> is_white(#[trigger] b[i]),
        s.len() > 0 ==> !is_white(s[0]) && !is_white(s.last()),
    ensures
        trimmed(a + s + b) == s,
{
    if s.len() > 0 {
        lemma_trim_start(a, s + b);
        assert(a + s + b =~= a + (s + b));
        assert((s + b)[0] == s[0]);
        lemma_trim_end(s, b);
    } else {
        let all = a + s + b;
        assert forall|i: int| 0 <= i < all.len() implies is_white(#[trigger] all[i]) by {
            if i < a.len() {
                assert(all[i] == a[i]);
            } else {
                assert(all[i] == b[i - a.len()]);
            }
        }
        lemma_trim_start(all, Seq::empty());
        assert(all + Seq::<char>::empty() =~= all);
        assert(trim_end(Seq::empty()) =~= Seq::<char>::empty());
        assert(s =~= Seq::empty());
    }
}

proof fn lemma_trim_start(a: Seq<char>, s: Seq<char>)
    requires
        forall|i: int| 0 <= i < a.len() ==> is_white(#[trigger] a[i]),
        s.len() > 0 ==> !is_white(s[0]),
    ensures
        trim_start(a + s) == s,
    decreases a.len(),
{
    if a.len() > 0 {
        let r = a.skip(1);
        assert((a + s)[0] == a[0]);
        assert((a + s).skip(1) =~= r + s);
        lemma_trim_start(r, s);
    } else {
        assert(a + s =~= s);
    }
}

proof fn lemma_trim_end(s: Seq<char>, b: Seq<char>)
    requires
        forall|i: int| 0 <= i < b.len() ==> is_white(#[trigger] b[i]),
        s.len() > 0 ==> !is_white(s.last()),
    ensures
        trim_end(s + b) == s,
    decreases b.len(),
{
    if b.len() > 0 {
        let r = b.drop_last();
        assert((s + b).last() == b[b.len() - 1]);
        assert((s + b).drop_last() =~= s + r);
        lemma_trim_end(s, r);
    } else {
        assert(s + b =~= s);
    }
}

/// A list is read from comma to comma: each part is trimmed, and one of which nothing is left is
/// passed over.
pub proof fn law_comma_list(part: Seq<char>, rest: Seq<char>)
    requires
        !part.contains(','),
    ensures
        comma_list(part) == (if trimmed(part).len() == 0 {
            Seq::empty()
        } else {
            seq![trimmed(part)]
        }),
        comma_list(part + seq![','] + rest) == (if trimmed(part).len() == 0 {
            comma_list(rest)
        } else {
            seq![trimmed(part)] + comma_list(rest)
        }),
{
    let s = part + seq![','] + rest;
    lemma_part_before_comma(part, seq![','] + rest);
    assert(s =~= part + (seq![','] + rest));
    assert((seq![','] + rest)[0] == ',');
    lemma_part_before_comma(part, Seq::empty());
    assert(part + Seq::<char>::empty() =~= part);
    assert(part.take(part.len() as int) =~= part);
    assert(s.take(part.len() as int) =~= part);
    assert(s.skip(part.len() as int + 1) =~= rest);
    if trimmed(part).len() > 0 {
        assert(seq![trimmed(part)] + Seq::<Seq<char>>::empty() =~= seq![trimmed(part)]);
    }
}

proof fn lemma_part_before_comma(part: Seq<char>, rest: Seq<char>)
    requires
        !part.contains(','),
        rest.len() > 0 ==> rest[0] == ',',
    ensures
        first_comma(part + rest) == part.len(),
    decreases part.len(),
{
    let s = part + rest;
    if part.len() > 0 {
        let p = part.skip(1);
        assert(part.contains(part[0]));
        assert(s[0] == part[0]);
        assert(s.skip(1) =~= p + rest);
        assert(!p.contains(',')) by {
            if p.contains(',') {
                let i = choose|i: int| 0 <= i < p.len() && p[i] == ',';
                assert(part[i + 1] == ',');
            }
        }
        lemma_part_before_comma(p, rest);
    } else {
        assert(s =~= rest);
    }
}

/// A part occurs where it stands between what is before and what is after it, and it occurs first
/// at one place only.
pub proof fn law_where_a_part_occurs(
    before: Seq<char>,
    part: Seq<char>,
    after: Seq<char>,
    s: Seq<char>,
    i: int,
    j: int,
)
    ensures
        occurs_at(before + part + after, part, before.len() as int),
        occurs_at(s, part, i) ==> s == s.take(i) + part + s.skip(i + part.len()),
        first_at(s, part, i) && first_at(s, part, j) ==> i == j,
        first_at(s, part, i) && occurs_at(s, part, j) ==> i <= j,
{
    let all = before + part + after;
    let n = before.len() as int;
    assert(all.subrange(n, n + part.len()) =~= part);
    if occurs_at(s, part, i) {
        assert(s.subrange(i, i + part.len()) == part);
        assert(s =~= s.take(i) + s.subrange(i, i + part.len()) + s.skip(i + part.len()));
    }
}

} // verus!
