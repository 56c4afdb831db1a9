//! Query strings: `a=b&c=d` into names with their values, percent-escapes decoded.
use vstd::prelude::*;
use crate::text::{split_on, join_with, chars_of, string_of, split_chars, join_chars};
use crate::context::{lookup, put, lemma_put_at, keys_unique, lemma_put_keeps_keys_unique};

verus! {

broadcast use crate::views::lemma_char_vec_deep_view;

/// A hexadecimal digit.
pub open spec fn is_hex(c: char) -> bool {
    ('0' <= c && c <= '9') || ('a' <= c && c <= 'f') || ('A' <= c && c <= 'F')
}

/// The value of a hexadecimal digit.
pub open spec fn hex_value(c: char) -> int {
    if '0' <= c && c <= '9' {
        c as int - '0' as int
    } else if 'a' <= c && c <= 'f' {
        c as int - 'a' as int + 10
    } else {
        c as int - 'A' as int + 10
    }
}

/// A query component with its escapes decoded: `%` and two hexadecimal digits stand for the
/// character with that code (0 to 255), and `+` for a space; anything else stands for
/// itself.
pub open spec fn decode(s: Seq<char>) -> Seq<char>
    decreases s.len(),
{
    if s.len() == 0 {
        Seq::empty()
    } else if s[0] == '%' && s.len() >= 3 && is_hex(s[1]) && is_hex(s[2]) {
        seq![((hex_value(s[1]) * 16 + hex_value(s[2])) as u8) as char] + decode(s.skip(3))
    } else if s[0] == '+' {
        seq![' '] + decode(s.skip(1))
    } else {
        seq![s[0]] + decode(s.skip(1))
    }
}

/// The value of a hexadecimal digit `0`-`9`, `a`-`f` or `A`-`F`, and -1 for any other
/// character.
pub open spec fn digit_value(c: char) -> int {
    if '0' <= c && c <= '9' {
        c as int - 48
    } else if 'a' <= c && c <= 'f' {
        c as int - 87
    } else if 'A' <= c && c <= 'F' {
        c as int - 55
    } else {
        -1
    }
}

/// Law: `%` followed by two hexadecimal digits, in either case, decodes to the one character
/// whose code the digits give (`%2F` and `%2f` are `/`); `+` decodes to a space; a `%` not
/// followed by two hexadecimal digits stays as it is; the rest decodes on its own.
pub proof fn lemma_decode_escapes(h1: char, h2: char, rest: Seq<char>)
    ensures
        digit_value(h1) >= 0 && digit_value(h2) >= 0 ==> {
            let d = decode(seq!['%', h1, h2] + rest);
            &&& d.len() == decode(rest).len() + 1
            &&& d[0] as int == 16 * digit_value(h1) + digit_value(h2)
            &&& d.drop_first() == decode(rest)
        },
        decode(seq!['+'] + rest) == seq![' '] + decode(rest),
        !(rest.len() >= 2 && digit_value(rest[0]) >= 0 && digit_value(rest[1]) >= 0) ==> decode(seq!['%'] + rest)
            == seq!['%'] + decode(rest),
{
    let s = seq!['%', h1, h2] + rest;
    assert(s.skip(3) =~= rest);
    if digit_value(h1) >= 0 && digit_value(h2) >= 0 {
        assert(is_hex(s[1]) && is_hex(s[2]));
        assert(hex_value(h1) == digit_value(h1) && hex_value(h2) == digit_value(h2));
        let n = hex_value(h1) * 16 + hex_value(h2);
        assert(0 <= n < 256);
        assert(decode(s) == seq![(n as u8) as char] + decode(rest));
        assert((n as u8) as int == n);
        assert(decode(s).drop_first() =~= decode(rest));
    }
    let t = seq!['+'] + rest;
    assert(t.skip(1) =~= rest);
    let u = seq!['%'] + rest;
    assert(u.skip(1) =~= rest);
    if !(rest.len() >= 2 && digit_value(rest[0]) >= 0 && digit_value(rest[1]) >= 0) {
        if u.len() >= 3 {
            assert(u[1] == rest[0] && u[2] == rest[1]);
            assert(is_hex(rest[0]) ==> digit_value(rest[0]) >= 0);
            assert(is_hex(rest[1]) ==> digit_value(rest[1]) >= 0);
        }
    }
}

/// A name with its values: `value` added after the values that `name` already has.
pub open spec fn add_value(
    m: Seq<(Seq<char>, Seq<Seq<char>>)>,
    name: Seq<char>,
    value: Seq<char>,
) -> Seq<(Seq<char>, Seq<Seq<char>>)> {
    match lookup(m, name) {
        Some(vs) => put(m, name, vs.push(value)),
        None => put(m, name, seq![value]),
    }
}

/// One `name=value` piece of a query: the name is the text before the first `=`, the value
/// the text after it (empty when there is no `=`), both decoded.
pub open spec fn query_pair(piece: Seq<char>) -> (Seq<char>, Seq<char>) {
    let parts = split_on(piece, '=');
    (decode(parts[0]), decode(join_with(parts.drop_first(), seq!['='])))
}

/// The names and values of the given `&`-separated pieces; empty pieces are skipped.
pub open spec fn query_of(pieces: Seq<Seq<char>>) -> Seq<(Seq<char>, Seq<Seq<char>>)>
    decreases pieces.len(),
{
    if pieces.len() == 0 {
        Seq::empty()
    } else {
        let rest = query_of(pieces.drop_last());
        let p = pieces.last();
        if p.len() == 0 {
            rest
        } else {
            add_value(rest, query_pair(p).0, query_pair(p).1)
        }
    }
}

/// The names and values of a query string, each name once with its values in order.
pub open spec fn parse_query_spec(s: Seq<char>) -> Seq<(Seq<char>, Seq<Seq<char>>)> {
    query_of(split_on(s, '&'))
}

/// Law: in a parsed query each name occurs once.
pub proof fn lemma_query_names_unique(s: Seq<char>)
    ensures
        keys_unique(parse_query_spec(s)),
{
    lemma_query_of_unique(split_on(s, '&'));
}

proof fn lemma_query_of_unique(pieces: Seq<Seq<char>>)
    ensures
        keys_unique(query_of(pieces)),
    decreases pieces.len(),
{
    if pieces.len() > 0 {
        lemma_query_of_unique(pieces.drop_last());
        let rest = query_of(pieces.drop_last());
        let (k, v) = query_pair(pieces.last());
        match lookup(rest, k) {
            Some(vs) => lemma_put_keeps_keys_unique(rest, k, vs.push(v)),
            None => lemma_put_keeps_keys_unique(rest, k, seq![v]),
        }
    }
}

/// Law: a query component without `%` or `+` decodes to itself.
pub proof fn lemma_decode_plain(s: Seq<char>)
    requires
        !s.contains('%'),
        !s.contains('+'),
    ensures
        decode(s) == s,
    decreases s.len(),
{
    if s.len() > 0 {
        assert(s[0] != '%' && s[0] != '+');
        assert(!s.skip(1).contains('%') && !s.skip(1).contains('+')) by {
            if s.skip(1).contains('%') {
                let i = choose|i: int| 0 <= i < s.skip(1).len() && s.skip(1)[i] == '%';
                assert(s[i + 1] == '%');
            }
            if s.skip(1).contains('+') {
                let i = choose|i: int| 0 <= i < s.skip(1).len() && s.skip(1)[i] == '+';
                assert(s[i + 1] == '+');
            }
        }
        lemma_decode_plain(s.skip(1));
        assert(seq![s[0]] + s.skip(1) =~= s);
    }
}

fn is_hex_char(c: char) -> (r: bool)
    ensures
        r == is_hex(c),
{
    ('0' <= c && c <= '9') || ('a' <= c && c <= 'f') || ('A' <= c && c <= 'F')
}

fn hex_char_value(c: char) -> (r: u8)
    requires
        is_hex(c),
    ensures
        r as int == hex_value(c),
        r < 16,
{
    let n: u32 = c as u32;
    if '0' <= c && c <= '9' {
        (n - 48) as u8
    } else if 'a' <= c && c <= 'f' {
        (n - 87) as u8
    } else {
        (n - 55) as u8
    }
}

/// Decodes the escapes of a query component.
pub fn decode_query(s: &[char]) -> (r: Vec<char>)
    ensures
        r@ == decode(s@),
{
    let mut out: Vec<char> = Vec::new();
    let mut i: usize = 0;
    assert(s@.skip(0) =~= s@);
    assert(out@ + decode(s@) =~= decode(s@));
    while i < s.len()
        invariant
            i <= s@.len(),
            decode(s@) == out@ + decode(s@.skip(i as int)),
        decreases s.len() - i,
    {
        let ghost rest = s@.skip(i as int);
        if s[i] == '%' && s.len() - i > 2 && is_hex_char(s[i + 1]) && is_hex_char(s[i + 2]) {
            let hi = hex_char_value(s[i + 1]);
            let lo = hex_char_value(s[i + 2]);
            let b: u8 = hi * 16 + lo;
            let c: char = b as char;
            proof {
                assert(rest[0] == s@[i as int] && rest[1] == s@[i + 1] && rest[2] == s@[i + 2]);
                assert(rest.skip(3) =~= s@.skip(i + 3));
                assert(c == ((hex_value(rest[1]) * 16 + hex_value(rest[2])) as u8) as char);
            }
            out.push(c);
            i = i + 3;
        } else if s[i] == '+' {
            proof {
                assert(rest.skip(1) =~= s@.skip(i + 1));
            }
            out.push(' ');
            i = i + 1;
        } else {
            proof {
                assert(rest[0] == s@[i as int]);
                assert(rest.skip(1) =~= s@.skip(i + 1));
                if rest[0] == '%' && rest.len() >= 3 {
                    assert(rest[1] == s@[i + 1] && rest[2] == s@[i + 2]);
                }
            }
            out.push(s[i]);
            i = i + 1;
        }
    }
    assert(s@.skip(i as int) =~= Seq::<char>::empty());
    assert(out@ + Seq::<char>::empty() =~= out@);
    out
}

/// Adds `value` to the values of `name`.
fn add_query_value(m: &mut Vec<(String, Vec<String>)>, name: Vec<char>, value: Vec<char>)
    ensures
        final(m).deep_view() == add_value(old(m).deep_view(), name@, value@),
{
    let ghost h = m.deep_view();
    let mut i: usize = 0;
    while i < m.len()
        invariant_except_break
            i <= m@.len(),
            h == m.deep_view(),
            forall|j: int| 0 <= j < i ==> #[trigger] h[j].0 != name@,
        ensures
            i <= m@.len(),
            h == m.deep_view(),
            forall|j: int| 0 <= j < i ==> #[trigger] h[j].0 != name@,
            i < m@.len() ==> h[i as int].0 == name@,
        decreases m.len() - i,
    {
        let k = chars_of(m[i].0.as_str());
        assert(h[i as int].0 == k@);
        if crate::text::chars_eq(k.as_slice(), name.as_slice()) {
            break;
        }
        i = i + 1;
    }
    proof {
        crate::context::lemma_lookup_first(h, name@, i as int);
    }
    let v = string_of(value.as_slice());
    if i < m.len() {
        let mut vs = m[i].1.clone();
        let ghost old_vs = h[i as int].1;
        assert(vs.deep_view() =~= old_vs);
        vs.push(v);
        assert(vs.deep_view() =~= old_vs.push(value@));
        proof {
            lemma_put_at(h, name@, old_vs.push(value@), i as int);
        }
        let key = string_of(name.as_slice());
        m.set(i, (key, vs));
        assert(m.deep_view() =~= h.update(i as int, (name@, old_vs.push(value@))));
    } else {
        let mut vs: Vec<String> = Vec::new();
        vs.push(v);
        assert(vs.deep_view() =~= seq![value@]);
        proof {
            lemma_put_at(h, name@, seq![value@], i as int);
        }
        let key = string_of(name.as_slice());
        m.push((key, vs));
        assert(m.deep_view() =~= h.push((name@, seq![value@])));
    }
}

/// Parses a query string such as `a=b&c=d`: each name once, with its values in the order
/// they were given; escapes are decoded.
pub fn parse_query(query: &str) -> (r: Vec<(String, Vec<String>)>)
    ensures
        r.deep_view() == parse_query_spec(query@),
        keys_unique(r.deep_view()),
{
    proof {
        lemma_query_names_unique(query@);
    }
    let cs = chars_of(query);
    let pieces = split_chars(cs.as_slice(), '&');
    let mut m: Vec<(String, Vec<String>)> = Vec::new();
    let mut i: usize = 0;
    while i < pieces.len()
        invariant
            i <= pieces@.len(),
            pieces.deep_view() == split_on(query@, '&'),
            m.deep_view() == query_of(pieces.deep_view().take(i as int)),
        decreases pieces.len() - i,
    {
        assert(pieces.deep_view().take(i + 1).drop_last() =~= pieces.deep_view().take(i as int));
        assert(pieces.deep_view()[i as int] == pieces@[i as int]@);
        if pieces[i].len() > 0 {
            let parts = split_chars(pieces[i].as_slice(), '=');
            let name = decode_query(parts[0].as_slice());
            let mut rest: Vec<Vec<char>> = Vec::new();
            let mut k: usize = 1;
            while k < parts.len()
                invariant
                    1 <= k <= parts@.len(),
                    rest.deep_view() == parts.deep_view().subrange(1, k as int),
                decreases parts.len() - k,
            {
                let ghost before = rest.deep_view();
                let c = crate::text::copy_chars(&parts[k]);
                rest.push(c);
                assert(rest.deep_view() =~= before.push(parts.deep_view()[k as int]));
                assert(parts.deep_view().subrange(1, k + 1) =~= parts.deep_view().subrange(1, k as int).push(
                    parts.deep_view()[k as int],
                ));
                k = k + 1;
            }
            assert(parts.deep_view().subrange(1, parts@.len() as int) =~= parts.deep_view().drop_first());
            let eq: Vec<char> = vec!['='];
            assert(eq@ =~= seq!['=']);
            let joined = join_chars(&rest, eq.as_slice());
            let value = decode_query(joined.as_slice());
            add_query_value(&mut m, name, value);
        }
        i = i + 1;
    }
    assert(pieces.deep_view().take(pieces@.len() as int) =~= pieces.deep_view());
    m
}

} // verus!
