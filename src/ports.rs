//! Port specifications: a comma-separated list of single ports (`80`) and
//! inclusive ranges (`1000-1005`). Malformed tokens contribute no ports.
use vstd::prelude::*;

verus! {

/// The pieces of `s` between occurrences of `sep`, like `str::split`.
/// There is always at least one piece.
pub open spec fn split_on(s: Seq<char>, sep: char) -> Seq<Seq<char>>
    decreases s.len(),
{
    if s.len() == 0 {
        seq![Seq::<char>::empty()]
    } else {
        let rest = split_on(s.drop_last(), sep);
        if s.last() == sep {
            rest.push(Seq::<char>::empty())
        } else {
            rest.update(rest.len() - 1, rest.last().push(s.last()))
        }
    }
}

pub open spec fn is_digit(c: char) -> bool {
    '0' <= c && c <= '9'
}

pub open spec fn digit_value(c: char) -> nat {
    (c as u32 - '0' as u32) as nat
}

pub open spec fn digit_char(d: nat) -> char {
    ((d + '0' as u32) as u8) as char
}

pub open spec fn all_digits(s: Seq<char>) -> bool {
    forall|i: int| 0 <= i < s.len() ==> is_digit(#[trigger] s[i])
}

/// The number that a string of decimal digits denotes.
pub open spec fn digits_value(s: Seq<char>) -> nat
    decreases s.len(),
{
    if s.len() == 0 {
        0
    } else {
        digits_value(s.drop_last()) * 10 + digit_value(s.last())
    }
}

/// A 16-bit unsigned integer written in decimal, as `u16::from_str` reads it:
/// an optional leading `+`, then one or more digits, of value at most 65535.
pub open spec fn parse_u16(t: Seq<char>) -> Option<u16> {
    let d = if t.len() > 0 && t[0] == '+' {
        t.drop_first()
    } else {
        t
    };
    if d.len() > 0 && all_digits(d) && digits_value(d) <= 0xffff {
        Some(digits_value(d) as u16)
    } else {
        None
    }
}

/// The ports from `a` to `b` inclusive, ascending; empty when `a > b`.
pub open spec fn port_range(a: u16, b: u16) -> Seq<u16> {
    if a <= b {
        Seq::new((b - a + 1) as nat, |i: int| (a + i) as u16)
    } else {
        Seq::empty()
    }
}

/// The ports that one comma-separated token denotes. A token with exactly
/// one `-` is a range `a-b`; a token without a dash is a single port; a
/// token with more dashes is malformed and denotes nothing.
pub open spec fn token_ports(t: Seq<char>) -> Seq<u16> {
    let pieces = split_on(t, '-');
    if pieces.len() == 2 {
        match (parse_u16(pieces[0]), parse_u16(pieces[1])) {
            (Some(a), Some(b)) => port_range(a, b),
            _ => Seq::empty(),
        }
    } else if pieces.len() > 2 {
        Seq::empty()
    } else {
        match parse_u16(t) {
            Some(p) => seq![p],
            None => Seq::empty(),
        }
    }
}

/// The ports of a sequence of tokens, in token order.
pub open spec fn tokens_ports(ts: Seq<Seq<char>>) -> Seq<u16>
    decreases ts.len(),
{
    if ts.len() == 0 {
        Seq::empty()
    } else {
        tokens_ports(ts.drop_last()) + token_ports(ts.last())
    }
}

/// The ports that a port specification denotes.
pub open spec fn ports_of(s: Seq<char>) -> Seq<u16> {
    tokens_ports(split_on(s, ','))
}

/// The decimal digits of `n`, without leading zeros.
pub open spec fn decimal(n: nat) -> Seq<char>
    decreases n,
{
    if n < 10 {
        seq![digit_char(n)]
    } else {
        decimal(n / 10).push(digit_char(n % 10))
    }
}

/// The ports written in decimal and separated by commas.
pub open spec fn join_ports(ps: Seq<u16>) -> Seq<char>
    decreases ps.len(),
{
    if ps.len() == 0 {
        Seq::empty()
    } else if ps.len() == 1 {
        decimal(ps[0] as nat)
    } else {
        join_ports(ps.drop_last()) + seq![','] + decimal(ps.last() as nat)
    }
}

/// Splits `s` at every `sep`, as `str::split` does.
pub fn split_chars(s: &Vec<char>, sep: char) -> (r: Vec<Vec<char>>)
    ensures
        r.deep_view() == split_on(s@, sep),
{
    let mut done: Vec<Vec<char>> = Vec::new();
    let mut cur: Vec<char> = Vec::new();
    let mut i: usize = 0;
    while i < s.len()
        invariant
            i <= s.len(),
            done.deep_view().push(cur@) == split_on(s@.subrange(0, i as int), sep),
        decreases s.len() - i,
    {
        let c = s[i];
        proof {
            let p = s@.subrange(0, i as int + 1);
            assert(p.drop_last() == s@.subrange(0, i as int));
        }
        if c == sep {
            let ghost before = done.deep_view();
            let finished = cur;
            done.push(finished);
            cur = Vec::new();
            proof {
                assert(done.deep_view() =~~= before.push(finished@));
                assert(done.deep_view().push(cur@) =~~= split_on(s@.subrange(0, i as int), sep).push(
                    Seq::<char>::empty(),
                ));
            }
        } else {
            cur.push(c);
            proof {
                let old_split = split_on(s@.subrange(0, i as int), sep);
                assert(done.deep_view().push(cur@) =~~= old_split.update(
                    old_split.len() - 1,
                    old_split.last().push(c),
                ));
            }
        }
        i = i + 1;
    }
    let ghost before = done.deep_view();
    let last = cur;
    done.push(last);
    proof {
        assert(done.deep_view() =~~= before.push(last@));
        assert(s@.subrange(0, s@.len() as int) == s@);
    }
    done
}

/// The characters of a string, in order.
pub fn chars_of(s: &str) -> (r: Vec<char>)
    ensures
        r@ == s@,
{
    let n = s.unicode_len();
    let mut r: Vec<char> = Vec::new();
    let mut i: usize = 0;
    while i < n
        invariant
            n == s@.len(),
            i <= n,
            r@ == s@.subrange(0, i as int),
        decreases n - i,
    {
        r.push(s.get_char(i));
        i = i + 1;
    }
    proof {
        assert(r@ =~= s@);
    }
    r
}

proof fn lemma_digits_value_prefix(s: Seq<char>, k: int)
    requires
        0 <= k <= s.len(),
        all_digits(s),
    ensures
        digits_value(s.subrange(0, k)) <= digits_value(s),
    decreases s.len(),
{
    if k < s.len() {
        assert(s.drop_last() == s.subrange(0, s.len() - 1));
        assert(s.drop_last().subrange(0, k) == s.subrange(0, k));
        lemma_digits_value_prefix(s.drop_last(), k);
    } else {
        assert(s.subrange(0, k) == s);
    }
}

/// Reads a port number as `u16::from_str` does.
pub fn parse_port(t: &Vec<char>) -> (r: Option<u16>)
    ensures
        r == parse_u16(t@),
{
    let start: usize = if t.len() > 0 && t[0] == '+' {
        1
    } else {
        0
    };
    let ghost d = if t@.len() > 0 && t@[0] == '+' {
        t@.drop_first()
    } else {
        t@
    };
    assert(d == t@.subrange(start as int, t@.len() as int));
    if start >= t.len() {
        return None;
    }
    let mut value: u32 = 0;
    let mut i: usize = start;
    while i < t.len()
        invariant
            start <= i <= t.len(),
            d == (if t@.len() > 0 && t@[0] == '+' {
                t@.drop_first()
            } else {
                t@
            }),
            d == t@.subrange(start as int, t@.len() as int),
            all_digits(d.subrange(0, i - start)),
            value as nat == digits_value(d.subrange(0, i - start)),
            value <= 0xffff,
        decreases t.len() - i,
    {
        let c = t[i];
        if !('0' <= c && c <= '9') {
            proof {
                assert(d[i - start] == c);
                assert(!is_digit(d[i - start]));
                assert(!all_digits(d));
            }
            return None;
        }
        proof {
            let p = d.subrange(0, i - start + 1);
            assert(p.drop_last() == d.subrange(0, i - start));
            assert(p.last() == c);
        }
        value = value * 10 + (c as u32 - '0' as u32);
        if value > 0xffff {
            proof {
                let p = d.subrange(0, i - start + 1);
                assert(digits_value(p) == digits_value(p.drop_last()) * 10 + digit_value(c));
                assert(value == digits_value(p));
                if all_digits(d) {
                    lemma_digits_value_prefix(d, i - start + 1);
                }
            }
            return None;
        }
        i = i + 1;
    }
    proof {
        assert(d.subrange(0, d.len() as int) == d);
    }
    Some(value as u16)
}

/// Appends the ports from `a` to `b` inclusive, ascending.
fn push_range(out: &mut Vec<u16>, a: u16, b: u16)
    ensures
        final(out)@ == old(out)@ + port_range(a, b),
{
    if a > b {
        proof {
            assert(old(out)@ + port_range(a, b) =~= old(out)@);
        }
        return;
    }
    let ghost base = out@;
    let mut v: u32 = a as u32;
    while v <= b as u32
        invariant
            a <= b,
            a <= v <= b as u32 + 1,
            out@ =~= base + Seq::new((v - a) as nat, |i: int| (a + i) as u16),
        decreases b as u32 + 1 - v,
    {
        out.push(v as u16);
        v = v + 1;
        proof {
            assert(out@ =~= base + Seq::new((v - a) as nat, |i: int| (a + i) as u16));
        }
    }
    proof {
        assert(out@ =~= base + port_range(a, b));
    }
}

/// The ports that one comma-separated token denotes.
pub fn token_port_list(t: &Vec<char>) -> (r: Vec<u16>)
    ensures
        r@ == token_ports(t@),
{
    let pieces = split_chars(t, '-');
    proof {
        lemma_split_nonempty(t@, '-');
    }
    let mut out: Vec<u16> = Vec::new();
    if pieces.len() == 2 {
        proof {
            assert(pieces.deep_view()[0] == pieces@[0]@);
            assert(pieces.deep_view()[1] == pieces@[1]@);
        }
        let a = parse_port(&pieces[0]);
        let b = parse_port(&pieces[1]);
        match (a, b) {
            (Some(a), Some(b)) => {
                push_range(&mut out, a, b);
                proof {
                    assert(out@ =~= port_range(a, b));
                }
            },
            _ => {},
        }
    } else if pieces.len() == 1 {
        match parse_port(t) {
            Some(p) => {
                out.push(p);
                proof {
                    assert(out@ =~= seq![p]);
                }
            },
            None => {},
        }
    }
    out
}

/// The ports that a port specification denotes: tokens are separated by
/// commas and read left to right, a range ascending from its start to its
/// end inclusive; a token that does not parse adds nothing.
pub fn parse_ports(s: &str) -> (r: Vec<u16>)
    ensures
        r@ == ports_of(s@),
{
    let cs = chars_of(s);
    let tokens = split_chars(&cs, ',');
    let ghost ts = tokens.deep_view();
    let mut out: Vec<u16> = Vec::new();
    let mut k: usize = 0;
    while k < tokens.len()
        invariant
            ts == tokens.deep_view(),
            ts == split_on(s@, ','),
            k <= tokens.len(),
            out@ == tokens_ports(ts.take(k as int)),
        decreases tokens.len() - k,
    {
        let mut part = token_port_list(&tokens[k]);
        proof {
            assert(ts[k as int] == tokens@[k as int]@);
            assert(ts.take(k as int + 1).drop_last() == ts.take(k as int));
        }
        out.append(&mut part);
        k = k + 1;
    }
    proof {
        assert(ts.take(ts.len() as int) == ts);
    }
    out
}

fn digit_text(d: u64) -> (r: &'static str)
    requires
        d < 10,
    ensures
        r@ == seq![digit_char(d as nat)],
{
    proof {
        reveal_strlit("0");
        reveal_strlit("1");
        reveal_strlit("2");
        reveal_strlit("3");
        reveal_strlit("4");
        reveal_strlit("5");
        reveal_strlit("6");
        reveal_strlit("7");
        reveal_strlit("8");
        reveal_strlit("9");
    }
    let r = if d == 0 {
        "0"
    } else if d == 1 {
        "1"
    } else if d == 2 {
        "2"
    } else if d == 3 {
        "3"
    } else if d == 4 {
        "4"
    } else if d == 5 {
        "5"
    } else if d == 6 {
        "6"
    } else if d == 7 {
        "7"
    } else if d == 8 {
        "8"
    } else {
        "9"
    };
    assert(r@ =~= seq![digit_char(d as nat)]);
    r
}

/// `n` in decimal, without leading zeros.
pub fn decimal_text(n: u64) -> (r: String)
    ensures
        r@ == decimal(n as nat),
    decreases n,
{
    if n < 10 {
        String::from_str(digit_text(n))
    } else {
        let mut r = decimal_text(n / 10);
        r.append(digit_text(n % 10));
        r
    }
}

/// The ports in decimal, separated by commas: a port specification that
/// denotes exactly these ports, in this order.
pub fn format_ports(ps: &Vec<u16>) -> (r: String)
    ensures
        r@ == join_ports(ps@),
{
    let mut r = String::new();
    let mut k: usize = 0;
    while k < ps.len()
        invariant
            k <= ps.len(),
            r@ == join_ports(ps@.take(k as int)),
        decreases ps.len() - k,
    {
        proof {
            assert(ps@.take(k as int + 1).drop_last() == ps@.take(k as int));
        }
        if k > 0 {
            proof {
                reveal_strlit(",");
            }
            r.append(",");
        }
        let d = decimal_text(ps[k] as u64);
        r.append(d.as_str());
        proof {
            if k == 0 {
                assert(r@ =~= join_ports(ps@.take(1)));
            } else {
                assert(r@ =~= join_ports(ps@.take(k as int + 1)));
            }
        }
        k = k + 1;
    }
    proof {
        assert(ps@.take(ps@.len() as int) == ps@);
    }
    r
}

proof fn lemma_split_nonempty(s: Seq<char>, sep: char)
    ensures
        split_on(s, sep).len() >= 1,
    decreases s.len(),
{
    if s.len() > 0 {
        lemma_split_nonempty(s.drop_last(), sep);
    }
}

/// Splitting at a separator splits the two sides independently.
pub proof fn lemma_split_concat(a: Seq<char>, b: Seq<char>, sep: char)
    ensures
        split_on(a + seq![sep] + b, sep) == split_on(a, sep) + split_on(b, sep),
    decreases b.len(),
{
    let x = a + seq![sep] + b;
    if b.len() == 0 {
        assert(x.drop_last() =~= a);
        assert(x == a + seq![sep]);
        assert(split_on(x, sep) =~= split_on(a, sep) + split_on(b, sep));
    } else {
        assert(x.drop_last() =~= a + seq![sep] + b.drop_last());
        lemma_split_concat(a, b.drop_last(), sep);
        lemma_split_nonempty(b.drop_last(), sep);
        let pa = split_on(a, sep);
        let pb = split_on(b.drop_last(), sep);
        assert(x.last() == b.last());
        if b.last() == sep {
            assert(split_on(x, sep) =~= pa + pb.push(Seq::<char>::empty()));
        } else {
            assert(split_on(x, sep) =~= pa + pb.update(pb.len() - 1, pb.last().push(b.last())));
        }
    }
}

/// A string without the separator is one piece.
proof fn lemma_split_single(s: Seq<char>, sep: char)
    requires
        forall|i: int| 0 <= i < s.len() ==> s[i] != sep,
    ensures
        split_on(s, sep) == seq![s],
    decreases s.len(),
{
    if s.len() > 0 {
        lemma_split_single(s.drop_last(), sep);
        assert(s.drop_last().push(s.last()) =~= s);
        assert(split_on(s, sep) =~= seq![s]);
    } else {
        assert(s =~= Seq::<char>::empty());
    }
}

/// The ports of two token lists one after the other.
pub proof fn lemma_tokens_concat(x: Seq<Seq<char>>, y: Seq<Seq<char>>)
    ensures
        tokens_ports(x + y) == tokens_ports(x) + tokens_ports(y),
    decreases y.len(),
{
    if y.len() == 0 {
        assert(x + y =~= x);
        assert(tokens_ports(x) + tokens_ports(y) =~= tokens_ports(x));
    } else {
        assert((x + y).drop_last() =~= x + y.drop_last());
        lemma_tokens_concat(x, y.drop_last());
        assert((x + y).last() == y.last());
        assert(tokens_ports(x + y) =~= tokens_ports(x) + tokens_ports(y));
    }
}

proof fn lemma_digit_char(d: nat)
    requires
        d < 10,
    ensures
        is_digit(digit_char(d)),
        digit_value(digit_char(d)) == d,
{
    assert(((d + 48) as u8) as u32 == d + 48);
}

proof fn lemma_decimal(n: nat)
    ensures
        decimal(n).len() > 0,
        all_digits(decimal(n)),
        digits_value(decimal(n)) == n,
    decreases n,
{
    lemma_digit_char(n % 10);
    if n < 10 {
        assert(n % 10 == n);
        let d = decimal(n);
        assert(d.len() == 1);
        assert(is_digit(d[0]));
        assert forall|i: int| 0 <= i < d.len() implies is_digit(#[trigger] d[i]) by {
            assert(i == 0);
        }
        assert(d.drop_last() =~= Seq::<char>::empty());
        assert(digits_value(d) == digits_value(d.drop_last()) * 10 + digit_value(d.last()));
        assert(digits_value(Seq::<char>::empty()) == 0);
    } else {
        lemma_decimal(n / 10);
        assert(n / 10 * 10 + n % 10 == n);
        let d = decimal(n);
        assert(d.drop_last() == decimal(n / 10));
        assert(d.last() == digit_char(n % 10));
        assert(digits_value(d) == digits_value(d.drop_last()) * 10 + digit_value(d.last()));
        assert forall|i: int| 0 <= i < d.len() implies is_digit(#[trigger] d[i]) by {
            if i < d.len() - 1 {
                assert(d[i] == decimal(n / 10)[i]);
            }
        }
    }
}

proof fn lemma_decimal_port(p: u16)
    ensures
        token_ports(decimal(p as nat)) == seq![p],
{
    let d = decimal(p as nat);
    lemma_decimal(p as nat);
    assert forall|i: int| 0 <= i < d.len() implies d[i] != '-' by {
        assert(is_digit(d[i]));
    }
    lemma_split_single(d, '-');
    assert(is_digit(d[0]));
    assert(parse_u16(d) == Some(p));
}

proof fn lemma_join_split(ps: Seq<u16>)
    requires
        ps.len() >= 1,
    ensures
        split_on(join_ports(ps), ',') == ps.map_values(|p: u16| decimal(p as nat)),
    decreases ps.len(),
{
    let last = decimal(ps.last() as nat);
    lemma_decimal(ps.last() as nat);
    assert forall|i: int| 0 <= i < last.len() implies last[i] != ',' by {
        assert(is_digit(last[i]));
    }
    lemma_split_single(last, ',');
    if ps.len() == 1 {
        assert(ps.map_values(|p: u16| decimal(p as nat)) =~= seq![last]);
    } else {
        lemma_join_split(ps.drop_last());
        lemma_split_concat(join_ports(ps.drop_last()), last, ',');
        assert(ps.map_values(|p: u16| decimal(p as nat)) =~= ps.drop_last().map_values(
            |p: u16| decimal(p as nat),
        ) + seq![last]);
    }
}

proof fn lemma_tokens_of_decimals(ps: Seq<u16>)
    ensures
        tokens_ports(ps.map_values(|p: u16| decimal(p as nat))) == ps,
    decreases ps.len(),
{
    let ts = ps.map_values(|p: u16| decimal(p as nat));
    if ps.len() == 0 {
        assert(ts.len() == 0);
        assert(tokens_ports(ts) =~= ps);
    } else {
        lemma_tokens_of_decimals(ps.drop_last());
        assert(ts.drop_last() =~= ps.drop_last().map_values(|p: u16| decimal(p as nat)));
        lemma_decimal_port(ps.last());
        assert(tokens_ports(ts) =~= ps);
    }
}

/// Writing ports as a specification and reading it back gives the same
/// ports in the same order.
pub proof fn law_format_then_parse(ps: Seq<u16>)
    ensures
        ports_of(join_ports(ps)) == ps,
{
    if ps.len() == 0 {
        let e = Seq::<char>::empty();
        assert(join_ports(ps) == e);
        assert(split_on(e, ',') == seq![e]);
        assert(seq![e].drop_last() =~= Seq::<Seq<char>>::empty());
        assert(split_on(e, '-') == seq![e]);
        assert(token_ports(e) =~= Seq::<u16>::empty());
        assert(tokens_ports(seq![e]) == tokens_ports(seq![e].drop_last()) + token_ports(e));
        assert(tokens_ports(Seq::<Seq<char>>::empty()) == Seq::<u16>::empty());
        assert(ports_of(join_ports(ps)) =~= ps);
    } else {
        lemma_join_split(ps);
        lemma_tokens_of_decimals(ps);
    }
}

/// Parsing is idempotent: re-parsing the re-serialized port list of any
/// specification yields the same ports in the same order.
pub proof fn law_parse_idempotent(s: Seq<char>)
    ensures
        ports_of(join_ports(ports_of(s))) == ports_of(s),
{
    law_format_then_parse(ports_of(s));
}

/// A number that parses holds no dash, so it is one piece.
proof fn lemma_number_no_dash(x: Seq<char>)
    requires
        parse_u16(x) is Some,
    ensures
        split_on(x, '-') == seq![x],
{
    let d = if x.len() > 0 && x[0] == '+' {
        x.drop_first()
    } else {
        x
    };
    assert forall|i: int| 0 <= i < x.len() implies x[i] != '-' by {
        if x[0] == '+' && x.len() > 0 {
            if i > 0 {
                assert(d[i - 1] == x[i]);
                assert(is_digit(d[i - 1]));
            }
        } else {
            assert(is_digit(d[i]));
        }
    }
    lemma_split_single(x, '-');
}

/// A range token `a-b` with `a <= b` denotes the ports from `a` to `b`
/// inclusive, ascending, whatever decimal spelling its bounds have.
pub proof fn law_range_token(x: Seq<char>, y: Seq<char>, a: u16, b: u16)
    requires
        parse_u16(x) == Some(a),
        parse_u16(y) == Some(b),
        a <= b,
    ensures
        token_ports(x + seq!['-'] + y).len() == b - a + 1,
        forall|i: int|
            0 <= i <= b - a ==> #[trigger] token_ports(x + seq!['-'] + y)[i] == a + i,
{
    lemma_number_no_dash(x);
    lemma_number_no_dash(y);
    lemma_split_concat(x, y, '-');
    assert(split_on(x + seq!['-'] + y, '-') =~= seq![x, y]);
}

/// A token with two or more dashes is malformed and denotes no port.
pub proof fn law_extra_dash_token(x: Seq<char>, y: Seq<char>, z: Seq<char>)
    ensures
        token_ports(x + seq!['-'] + y + seq!['-'] + z) == Seq::<u16>::empty(),
{
    let xy = x + seq!['-'] + y;
    lemma_split_concat(xy, z, '-');
    lemma_split_concat(x, y, '-');
    lemma_split_nonempty(x, '-');
    lemma_split_nonempty(y, '-');
    lemma_split_nonempty(z, '-');
    assert(split_on(xy + seq!['-'] + z, '-').len() > 2);
}

/// Tokens do not affect one another: the ports of two specifications joined
/// by a comma are the ports of the first followed by those of the second.
/// So a malformed token adds nothing and takes nothing from its siblings.
pub proof fn law_tokens_independent(s1: Seq<char>, s2: Seq<char>)
    ensures
        ports_of(s1 + seq![','] + s2) == ports_of(s1) + ports_of(s2),
{
    lemma_split_concat(s1, s2, ',');
    lemma_tokens_concat(split_on(s1, ','), split_on(s2, ','));
}

} // verus!
