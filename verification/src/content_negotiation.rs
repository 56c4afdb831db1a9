//! Content negotiation: choosing the media type, language, charset and encoding of a
//! response from what the resource provides and what the request accepts.
use vstd::prelude::*;
use crate::headers::{HeaderValue, HeaderValueModel};
use crate::text::{
    split_on, join_with, trim, eq_ignore_case, prefix_ignore_case, chars_of, string_of, split_chars,
    trim_chars, join_chars, chars_eq, chars_eq_ignore_case, chars_prefix_ignore_case, concat_chars,
    copy_chars, same_up_to_case, lemma_eq_ignore_case_letters,
};
use crate::context::{lookup, lemma_lookup_first};

verus! {

broadcast use crate::views::lemma_char_vec_deep_view;

/// A decimal digit.
pub open spec fn is_digit(c: char) -> bool {
    '0' <= c && c <= '9'
}

/// The value of a decimal digit.
pub open spec fn digit(c: char) -> int {
    c as int - '0' as int
}

/// Every character is a decimal digit.
pub open spec fn all_digits(s: Seq<char>) -> bool {
    forall|i: int| 0 <= i < s.len() ==> is_digit(#[trigger] s[i])
}

/// Some character is not `0`.
pub open spec fn any_nonzero(s: Seq<char>) -> bool {
    exists|i: int| 0 <= i < s.len() && #[trigger] s[i] != '0'
}

/// The first three digits of a fraction, in thousandths.
pub open spec fn thousandths(f: Seq<char>) -> int {
    (if f.len() > 0 { digit(f[0]) * 100 } else { 0 }) + (if f.len() > 1 { digit(f[1]) * 10 } else { 0 }) + (
    if f.len() > 2 { digit(f[2]) } else { 0 })
}

/// A quality value (`q=0.5`) in thousandths, from 0 to 1000: digits, optionally followed by
/// `.` and more digits. A value of one or more counts as 1000, digits after the third
/// decimal place are dropped, and text that is not such a number counts as 1000.
pub open spec fn quality_of(q: Seq<char>) -> int {
    let parts = split_on(q, '.');
    if parts.len() == 1 && parts[0].len() > 0 && all_digits(parts[0]) {
        if any_nonzero(parts[0]) {
            1000
        } else {
            0
        }
    } else if parts.len() == 2 && parts[0].len() + parts[1].len() > 0 && all_digits(parts[0])
        && all_digits(parts[1]) {
        if any_nonzero(parts[0]) {
            1000
        } else {
            thousandths(parts[1])
        }
    } else {
        1000
    }
}

/// The weight of an accepted value: its `q` parameter, 1000 when it has none.
pub open spec fn weight(h: HeaderValueModel) -> int {
    match lookup(h.params, seq!['q']) {
        Some(q) => quality_of(q),
        None => 1000,
    }
}

/// The text `*`.
pub open spec fn star() -> Seq<char> {
    seq!['*']
}

/// The main type of a media type (`text` in `text/html`); `*` when it is empty.
pub open spec fn media_main(v: Seq<char>) -> Seq<char> {
    let m = trim(split_on(v, '/')[0]);
    if m.len() == 0 {
        star()
    } else {
        m
    }
}

/// The sub type of a media type (`html` in `text/html`); `*` when it is missing or empty.
pub open spec fn media_sub(v: Seq<char>) -> Seq<char> {
    let parts = split_on(v, '/');
    let s = trim(join_with(parts.drop_first(), seq!['/']));
    if parts.len() < 2 || s.len() == 0 {
        star()
    } else {
        s
    }
}

/// How well the media type `p` matches the accepted media type `a`: 0 when they are the
/// same, 1 when `a` is `main/*` with the same main type, 2 when `a` is `*/*`, 3 when they do
/// not match.
pub open spec fn media_rank(p: Seq<char>, a: Seq<char>) -> int {
    if media_main(a) == star() {
        2
    } else if media_main(p) == media_main(a) && media_sub(a) == star() {
        1
    } else if media_main(p) == media_main(a) && media_sub(p) == media_sub(a) {
        0
    } else {
        3
    }
}

/// The rank of the produced type `i` against the accepted value `j`; 3 when the accepted
/// value has weight 0.
pub open spec fn pair_rank(produces: Seq<Seq<char>>, accept: Seq<HeaderValueModel>, i: int, j: int) -> int {
    if weight(accept[j]) > 0 {
        media_rank(produces[i], accept[j].value)
    } else {
        3
    }
}

/// Some produced type matches some accepted value.
pub open spec fn some_media_match(produces: Seq<Seq<char>>, accept: Seq<HeaderValueModel>) -> bool {
    exists|i: int, j: int|
        0 <= i < produces.len() && 0 <= j < accept.len() && #[trigger] pair_rank(produces, accept, i, j)
            < 3
}

/// The produced type `i` is the one to choose: no pair matches better than rank `r`, `i` has
/// a pair of rank `r`, and no produced type before `i` has one.
pub open spec fn is_best_media(
    produces: Seq<Seq<char>>,
    accept: Seq<HeaderValueModel>,
    i: int,
    r: int,
) -> bool {
    &&& 0 <= i < produces.len()
    &&& 0 <= r < 3
    &&& exists|j: int| 0 <= j < accept.len() && #[trigger] pair_rank(produces, accept, i, j) == r
    &&& forall|i2: int, j2: int|
        0 <= i2 < produces.len() && 0 <= j2 < accept.len() ==> #[trigger] pair_rank(produces, accept, i2, j2)
            >= r
    &&& forall|i2: int, j2: int|
        0 <= i2 < i && 0 <= j2 < accept.len() ==> #[trigger] pair_rank(produces, accept, i2, j2) != r
}

/// The tokens with their weights as integers.
pub open spec fn weighted(s: Seq<(Seq<char>, u32)>) -> Seq<(Seq<char>, int)> {
    Seq::new(s.len(), |i: int| (s[i].0, s[i].1 as int))
}

/// The accepted values prepared as characters with their weights.
pub open spec fn tokens_ready(acs: Seq<Vec<char>>, ws: Seq<u32>, ac: Seq<HeaderValueModel>) -> bool {
    &&& acs.len() == ac.len()
    &&& ws.len() == ac.len()
    &&& forall|j: int| 0 <= j < ac.len() ==> (#[trigger] acs[j])@ == ac[j].value && ws[j] as int == weight(ac[j])
}

/// The kinds of value negotiated by token.
#[derive(Debug, Clone, Copy, PartialEq, Eq)]
pub enum TokenKind {
    Language,
    Charset,
    Encoding,
}

/// The accepted token `a` admits the provided value `p`: `a` is `*`, or the two are equal
/// ignoring ASCII case; an accepted language also admits a provided language `p` of which
/// it is a sub-tag (`en-gb` admits `en`).
pub open spec fn token_matches(kind: TokenKind, a: Seq<char>, p: Seq<char>) -> bool {
    a == star() || eq_ignore_case(a, p) || (kind == TokenKind::Language && prefix_ignore_case(
        p + seq!['-'],
        a,
    ))
}

/// Law: `*` admits every value; an accepted token admits a provided value written the same up
/// to ASCII case (`utf-8` admits `UTF-8`); an accepted language tag admits its primary
/// language (`en-gb` admits `en`). A charset or encoding token admits nothing else.
pub proof fn lemma_token_admits(kind: TokenKind, a: Seq<char>, p: Seq<char>, rest: Seq<char>)
    ensures
        a == seq!['*'] ==> token_matches(kind, a, p),
        a.len() == p.len() && (forall|i: int| 0 <= i < a.len() ==> same_up_to_case(#[trigger] a[i], p[i]))
            ==> token_matches(kind, a, p),
        kind == TokenKind::Language && a == p + seq!['-'] + rest ==> token_matches(kind, a, p),
        kind != TokenKind::Language && token_matches(kind, a, p) ==> a == seq!['*'] || (a.len() == p.len()
            && forall|i: int| 0 <= i < a.len() ==> same_up_to_case(#[trigger] a[i], p[i])),
{
    lemma_eq_ignore_case_letters(a, p);
    if kind == TokenKind::Language && a == p + seq!['-'] + rest {
        let q = p + seq!['-'];
        assert(a.take(q.len() as int) =~= q);
        lemma_eq_ignore_case_letters(q, q);
        assert(forall|i: int| 0 <= i < q.len() ==> same_up_to_case(#[trigger] q[i], q[i]));
    }
}

/// The accepted tokens with their weights, in the order written.
pub open spec fn tokens_of(values: Seq<HeaderValueModel>) -> Seq<(Seq<char>, int)> {
    Seq::new(values.len(), |j: int| (values[j].value, weight(values[j])))
}

/// The accepted tokens, with `default` added at weight 1000 after them when none of them is
/// `default` (ignoring ASCII case) or `*`.
pub open spec fn with_default(a: Seq<(Seq<char>, int)>, default: Seq<char>) -> Seq<(Seq<char>, int)> {
    if exists|j: int| 0 <= j < a.len() && (eq_ignore_case((#[trigger] a[j]).0, default) || a[j].0 == star()) {
        a
    } else {
        a.push((default, 1000))
    }
}

/// The accepted token `j` has weight above 0 and admits some provided value (any value
/// when none is provided).
pub open spec fn usable(kind: TokenKind, a: Seq<(Seq<char>, int)>, provided: Seq<Seq<char>>, j: int) -> bool {
    &&& a[j].1 > 0
    &&& (provided.len() == 0 || exists|k: int| 0 <= k < provided.len() && token_matches(kind, a[j].0, #[trigger] provided[k]))
}

/// The accepted token `j` is the one to choose: it is usable, no usable token weighs more,
/// and every usable token before it weighs less.
pub open spec fn is_best_token(kind: TokenKind, a: Seq<(Seq<char>, int)>, provided: Seq<Seq<char>>, j: int) -> bool {
    &&& 0 <= j < a.len()
    &&& usable(kind, a, provided, j)
    &&& forall|j2: int| 0 <= j2 < a.len() && usable(kind, a, provided, j2) ==> (#[trigger] a[j2]).1 <= a[j].1
    &&& forall|j2: int| 0 <= j2 < j && usable(kind, a, provided, j2) ==> (#[trigger] a[j2]).1 < a[j].1
}

/// The provided value `k` is the first one that the accepted token `t` admits.
pub open spec fn is_first_match(kind: TokenKind, t: Seq<char>, provided: Seq<Seq<char>>, k: int) -> bool {
    &&& 0 <= k < provided.len()
    &&& token_matches(kind, t, provided[k])
    &&& forall|k2: int| 0 <= k2 < k ==> !token_matches(kind, t, #[trigger] provided[k2])
}

/// The value negotiated from the accepted tokens: the first provided value admitted by the
/// best accepted token (the token itself when nothing is provided); `None` when no accepted
/// token is usable.
pub open spec fn negotiated(kind: TokenKind, a: Seq<(Seq<char>, int)>, provided: Seq<Seq<char>>, r: Option<Seq<char>>) -> bool {
    match r {
        Some(c) => exists|j: int|
            #![trigger a[j]]
            is_best_token(kind, a, provided, j) && if provided.len() == 0 {
                c == a[j].0
            } else {
                exists|k: int| #![trigger provided[k]] is_first_match(kind, a[j].0, provided, k) && c == provided[k]
            },
        None => forall|j: int| 0 <= j < a.len() ==> !usable(kind, a, provided, j),
    }
}

/// The media type chosen by `is_best_media`, if there is one.
pub open spec fn best_media_type(produces: Seq<Seq<char>>, accept: Seq<HeaderValueModel>) -> Option<Seq<char>> {
    if exists|i: int, rk: int| is_best_media(produces, accept, i, rk) {
        let (i, rk) = choose|i: int, rk: int| is_best_media(produces, accept, i, rk);
        Some(produces[i])
    } else {
        None
    }
}

/// There is at most one best media type.
pub proof fn lemma_best_media_unique(
    produces: Seq<Seq<char>>,
    accept: Seq<HeaderValueModel>,
    i1: int,
    r1: int,
    i2: int,
    r2: int,
)
    requires
        is_best_media(produces, accept, i1, r1),
        is_best_media(produces, accept, i2, r2),
    ensures
        i1 == i2 && r1 == r2,
{
    let j1 = choose|j: int| 0 <= j < accept.len() && #[trigger] pair_rank(produces, accept, i1, j) == r1;
    let j2 = choose|j: int| 0 <= j < accept.len() && #[trigger] pair_rank(produces, accept, i2, j) == r2;
    assert(pair_rank(produces, accept, i1, j1) >= r2);
    assert(pair_rank(produces, accept, i2, j2) >= r1);
    if i1 < i2 {
        assert(pair_rank(produces, accept, i1, j1) != r2);
    } else if i2 < i1 {
        assert(pair_rank(produces, accept, i2, j2) != r1);
    }
}

/// The value chosen by `is_best_token` and `is_first_match`, if there is one.
pub open spec fn negotiated_value(kind: TokenKind, a: Seq<(Seq<char>, int)>, provided: Seq<Seq<char>>) -> Option<Seq<char>> {
    if exists|j: int| is_best_token(kind, a, provided, j) {
        let j = choose|j: int| is_best_token(kind, a, provided, j);
        if provided.len() == 0 {
            Some(a[j].0)
        } else if exists|k: int| is_first_match(kind, a[j].0, provided, k) {
            let k = choose|k: int| is_first_match(kind, a[j].0, provided, k);
            Some(provided[k])
        } else {
            None
        }
    } else {
        None
    }
}

/// There is at most one best token.
pub proof fn lemma_best_token_unique(kind: TokenKind, a: Seq<(Seq<char>, int)>, provided: Seq<Seq<char>>, j1: int, j2: int)
    requires
        is_best_token(kind, a, provided, j1),
        is_best_token(kind, a, provided, j2),
    ensures
        j1 == j2,
{
    assert(a[j1].1 <= a[j2].1);
    assert(a[j2].1 <= a[j1].1);
}

/// There is at most one first match.
pub proof fn lemma_first_match_unique(kind: TokenKind, t: Seq<char>, provided: Seq<Seq<char>>, k1: int, k2: int)
    requires
        is_first_match(kind, t, provided, k1),
        is_first_match(kind, t, provided, k2),
    ensures
        k1 == k2,
{
    if k1 < k2 {
        assert(!token_matches(kind, t, provided[k1]));
    } else if k2 < k1 {
        assert(!token_matches(kind, t, provided[k2]));
    }
}

proof fn lemma_negotiated_value(kind: TokenKind, a: Seq<(Seq<char>, int)>, provided: Seq<Seq<char>>, r: Option<Seq<char>>)
    requires
        negotiated(kind, a, provided, r),
    ensures
        r == negotiated_value(kind, a, provided),
{
    match r {
        Some(c) => {
            let j = choose|j: int| #![trigger a[j]] is_best_token(kind, a, provided, j) && if provided.len() == 0 {
                c == a[j].0
            } else {
                exists|k: int| #![trigger provided[k]] is_first_match(kind, a[j].0, provided, k) && c == provided[k]
            };
            let j2 = choose|j: int| is_best_token(kind, a, provided, j);
            lemma_best_token_unique(kind, a, provided, j, j2);
            if provided.len() > 0 {
                let k = choose|k: int| #![trigger provided[k]] is_first_match(kind, a[j].0, provided, k) && c == provided[k];
                let k2 = choose|k: int| is_first_match(kind, a[j].0, provided, k);
                lemma_first_match_unique(kind, a[j].0, provided, k, k2);
            }
        },
        None => {
            assert forall|j: int| !is_best_token(kind, a, provided, j) by {
                if 0 <= j < a.len() {
                    assert(!usable(kind, a, provided, j));
                }
            }
        },
    }
}

/// Law: a chosen media type is one the resource produces, and it matches an accepted value
/// of weight above 0.
pub proof fn lemma_media_choice_produced(produces: Seq<Seq<char>>, accept: Seq<HeaderValueModel>)
    ensures
        best_media_type(produces, accept) matches Some(c) ==> exists|i: int, j: int|
            0 <= i < produces.len() && 0 <= j < accept.len() && produces[i] == c && weight(accept[j]) > 0
                && #[trigger] media_rank(produces[i], accept[j].value) < 3,
{
    if exists|i: int, rk: int| is_best_media(produces, accept, i, rk) {
        let (i, rk) = choose|i: int, rk: int| is_best_media(produces, accept, i, rk);
        let j = choose|j: int| 0 <= j < accept.len() && #[trigger] pair_rank(produces, accept, i, j) == rk;
        assert(weight(accept[j]) > 0 && media_rank(produces[i], accept[j].value) < 3);
    }
}

/// Law: a negotiated value is one the resource provides (when it provides any), and an
/// accepted token of weight above 0 admits it.
pub proof fn lemma_negotiated_provided(kind: TokenKind, a: Seq<(Seq<char>, int)>, provided: Seq<Seq<char>>)
    ensures
        negotiated_value(kind, a, provided) matches Some(c) ==> exists|j: int|
            0 <= j < a.len() && (#[trigger] a[j]).1 > 0 && if provided.len() == 0 {
                c == a[j].0
            } else {
                provided.contains(c) && token_matches(kind, a[j].0, c)
            },
{
    if exists|j: int| is_best_token(kind, a, provided, j) {
        let j = choose|j: int| is_best_token(kind, a, provided, j);
        if provided.len() > 0 && exists|k: int| is_first_match(kind, a[j].0, provided, k) {
            let k = choose|k: int| is_first_match(kind, a[j].0, provided, k);
            assert(provided[k] == provided[k]);
        }
        assert(a[j].1 > 0);
    }
}

fn is_digit_char(c: char) -> (r: bool)
    ensures
        r == is_digit(c),
{
    '0' <= c && c <= '9'
}

fn digit_value(c: char) -> (r: u32)
    requires
        is_digit(c),
    ensures
        r as int == digit(c),
        r < 10,
{
    (c as u32) - 48
}

fn all_digit_chars(s: &Vec<char>) -> (r: bool)
    ensures
        r == all_digits(s@),
{
    let mut i: usize = 0;
    while i < s.len()
        invariant
            i <= s@.len(),
            forall|j: int| 0 <= j < i ==> is_digit(#[trigger] s@[j]),
        decreases s.len() - i,
    {
        if !is_digit_char(s[i]) {
            return false;
        }
        i = i + 1;
    }
    true
}

fn any_nonzero_char(s: &Vec<char>) -> (r: bool)
    ensures
        r == any_nonzero(s@),
{
    let mut i: usize = 0;
    while i < s.len()
        invariant
            i <= s@.len(),
            forall|j: int| 0 <= j < i ==> #[trigger] s@[j] == '0',
        decreases s.len() - i,
    {
        if s[i] != '0' {
            return true;
        }
        i = i + 1;
    }
    false
}

/// A quality value in thousandths.
pub fn parse_quality(q: &str) -> (r: u32)
    ensures
        r as int == quality_of(q@),
        r <= 1000,
{
    let cs = chars_of(q);
    let parts = split_chars(cs.as_slice(), '.');
    if parts.len() == 1 && parts[0].len() > 0 && all_digit_chars(&parts[0]) {
        if any_nonzero_char(&parts[0]) {
            1000
        } else {
            0
        }
    } else if parts.len() == 2 && (parts[0].len() > 0 || parts[1].len() > 0) && all_digit_chars(&parts[0])
        && all_digit_chars(&parts[1]) {
        if any_nonzero_char(&parts[0]) {
            1000
        } else {
            let f = &parts[1];
            let a: u32 = if f.len() > 0 { digit_value(f[0]) * 100 } else { 0 };
            let b: u32 = if f.len() > 1 { digit_value(f[1]) * 10 } else { 0 };
            let c: u32 = if f.len() > 2 { digit_value(f[2]) } else { 0 };
            a + b + c
        }
    } else {
        1000
    }
}

/// The value of the first pair with the key `key`.
pub fn lookup_pair(pairs: &Vec<(String, String)>, key: &str) -> (r: Option<String>)
    ensures
        r.deep_view() == lookup(pairs.deep_view(), key@),
{
    let ghost h = pairs.deep_view();
    let mut i: usize = 0;
    while i < pairs.len()
        invariant
            i <= pairs@.len(),
            h == pairs.deep_view(),
            forall|j: int| 0 <= j < i ==> #[trigger] h[j].0 != key@,
        decreases pairs.len() - i,
    {
        assert(h[i as int] == (pairs@[i as int].0@, pairs@[i as int].1@));
        if crate::text::str_eq(pairs[i].0.as_str(), key) {
            proof {
                lemma_lookup_first(h, key@, i as int);
            }
            return Some(pairs[i].1.clone());
        }
        i = i + 1;
    }
    proof {
        lemma_lookup_first(h, key@, i as int);
    }
    None
}

/// The weight of an accepted value, in thousandths.
pub fn weight_of(h: &HeaderValue) -> (r: u32)
    ensures
        r as int == weight(h@),
        r <= 1000,
{
    let q: Vec<char> = vec!['q'];
    let qs = string_of(q.as_slice());
    assert(qs@ =~= seq!['q']);
    match lookup_pair(&h.params, qs.as_str()) {
        Some(v) => parse_quality(v.as_str()),
        None => 1000,
    }
}

fn star_chars() -> (r: Vec<char>)
    ensures
        r@ == star(),
{
    let r: Vec<char> = vec!['*'];
    assert(r@ =~= star());
    r
}

fn media_main_chars(v: &Vec<char>) -> (r: Vec<char>)
    ensures
        r@ == media_main(v@),
{
    let parts = split_chars(v.as_slice(), '/');
    let m = trim_chars(parts[0].as_slice());
    if m.len() == 0 {
        star_chars()
    } else {
        m
    }
}

fn media_sub_chars(v: &Vec<char>) -> (r: Vec<char>)
    ensures
        r@ == media_sub(v@),
{
    let parts = split_chars(v.as_slice(), '/');
    let mut rest: Vec<Vec<char>> = Vec::new();
    let mut k: usize = 1;
    while k < parts.len()
        invariant
            1 <= k <= parts@.len(),
            rest.deep_view() == parts.deep_view().subrange(1, k as int),
        decreases parts.len() - k,
    {
        let ghost before = rest.deep_view();
        let c = copy_chars(&parts[k]);
        rest.push(c);
        assert(rest.deep_view() =~= before.push(parts.deep_view()[k as int]));
        assert(parts.deep_view().subrange(1, k + 1) =~= parts.deep_view().subrange(1, k as int).push(
            parts.deep_view()[k as int],
        ));
        k = k + 1;
    }
    assert(parts.deep_view().subrange(1, parts@.len() as int) =~= parts.deep_view().drop_first());
    let slash: Vec<char> = vec!['/'];
    assert(slash@ =~= seq!['/']);
    let joined = join_chars(&rest, slash.as_slice());
    let s = trim_chars(joined.as_slice());
    if parts.len() < 2 || s.len() == 0 {
        star_chars()
    } else {
        s
    }
}

/// How well the media type `p` matches the accepted media type `a` (see `media_rank`).
pub fn media_rank_of(p: &Vec<char>, a: &Vec<char>) -> (r: u8)
    ensures
        r as int == media_rank(p@, a@),
{
    let am = media_main_chars(a);
    let pm = media_main_chars(p);
    let as_ = media_sub_chars(a);
    let ps = media_sub_chars(p);
    let st = star_chars();
    if chars_eq(am.as_slice(), st.as_slice()) {
        2
    } else if chars_eq(pm.as_slice(), am.as_slice()) && chars_eq(as_.as_slice(), st.as_slice()) {
        1
    } else if chars_eq(pm.as_slice(), am.as_slice()) && chars_eq(ps.as_slice(), as_.as_slice()) {
        0
    } else {
        3
    }
}

/// The media type to respond with: of the produced types, the first one that matches an
/// accepted value (of weight above 0) as closely as any pair matches; `None` when none
/// matches.
pub fn matching_content_type(produces: &Vec<String>, accept: &Vec<HeaderValue>) -> (r: Option<String>)
    ensures
        r.deep_view() == best_media_type(produces.deep_view(), accept.deep_view()),
        r is Some <==> some_media_match(produces.deep_view(), accept.deep_view()),
{
    let ghost ps = produces.deep_view();
    let ghost ac = accept.deep_view();
    let mut pcs: Vec<Vec<char>> = Vec::new();
    let mut x: usize = 0;
    while x < produces.len()
        invariant
            x <= produces@.len(),
            ps == produces.deep_view(),
            pcs.deep_view() == ps.take(x as int),
        decreases produces.len() - x,
    {
        let ghost before = pcs.deep_view();
        let c = chars_of(produces[x].as_str());
        assert(ps[x as int] == c@);
        pcs.push(c);
        assert(pcs.deep_view() =~= before.push(c@));
        assert(pcs.deep_view() =~= ps.take(x + 1));
        x = x + 1;
    }
    assert(ps.take(ps.len() as int) =~= ps);
    let mut acs: Vec<Vec<char>> = Vec::new();
    let mut ws: Vec<u32> = Vec::new();
    let mut y: usize = 0;
    while y < accept.len()
        invariant
            y <= accept@.len(),
            ac == accept.deep_view(),
            acs@.len() == y && ws@.len() == y,
            forall|j: int| 0 <= j < y ==> (#[trigger] acs@[j])@ == ac[j].value && ws@[j] as int == weight(ac[j]),
        decreases accept.len() - y,
    {
        assert(ac[y as int] == accept@[y as int]@);
        let c = chars_of(accept[y].value.as_str());
        let w = weight_of(&accept[y]);
        acs.push(c);
        ws.push(w);
        y = y + 1;
    }
    assert(tokens_ready(acs@, ws@, ac));
    let mut rank: u8 = 0;
    while rank < 3
        invariant
            rank <= 3,
            ps == produces.deep_view(),
            ac == accept.deep_view(),
            pcs.deep_view() == ps,
            acs@.len() == ac.len() && ws@.len() == ac.len(),
            tokens_ready(acs@, ws@, ac),
            forall|i2: int, j2: int|
                0 <= i2 < ps.len() && 0 <= j2 < ac.len() ==> #[trigger] pair_rank(ps, ac, i2, j2) >= rank,
        decreases 3 - rank,
    {
        let mut i: usize = 0;
        while i < pcs.len()
            invariant
                rank < 3,
                i <= ps.len(),
                ps == produces.deep_view(),
                ac == accept.deep_view(),
                pcs.deep_view() == ps,
                acs@.len() == ac.len() && ws@.len() == ac.len(),
                tokens_ready(acs@, ws@, ac),
                forall|i2: int, j2: int|
                    0 <= i2 < ps.len() && 0 <= j2 < ac.len() ==> #[trigger] pair_rank(ps, ac, i2, j2) >= rank,
                forall|i2: int, j2: int|
                    0 <= i2 < i && 0 <= j2 < ac.len() ==> #[trigger] pair_rank(ps, ac, i2, j2) != rank,
            decreases ps.len() - i,
        {
            let mut j: usize = 0;
            while j < acs.len()
                invariant
                    rank < 3,
                    i < ps.len(),
                    j <= ac.len(),
                    ps == produces.deep_view(),
                    ac == accept.deep_view(),
                    pcs.deep_view() == ps,
                    acs@.len() == ac.len() && ws@.len() == ac.len(),
                    tokens_ready(acs@, ws@, ac),
                    forall|i2: int, j2: int|
                        0 <= i2 < ps.len() && 0 <= j2 < ac.len() ==> #[trigger] pair_rank(ps, ac, i2, j2) >= rank,
                    forall|i2: int, j2: int|
                        0 <= i2 < i && 0 <= j2 < ac.len() ==> #[trigger] pair_rank(ps, ac, i2, j2) != rank,
                    forall|j2: int| 0 <= j2 < j ==> #[trigger] pair_rank(ps, ac, i as int, j2) != rank,
                decreases ac.len() - j,
            {
                assert(pcs.deep_view()[i as int] == pcs@[i as int]@);
                assert(0 <= j < ac.len());
                assert(acs@[j as int]@ == ac[j as int].value);
                assert(ws@[j as int] as int == weight(ac[j as int]));
                let pr: u8 = if ws[j] > 0 {
                    media_rank_of(&pcs[i], &acs[j])
                } else {
                    3
                };
                assert(pr as int == pair_rank(ps, ac, i as int, j as int));
                if pr == rank {
                    proof {
                        assert(is_best_media(ps, ac, i as int, rank as int));
                        let (i2, r2) = choose|i2: int, r2: int| is_best_media(ps, ac, i2, r2);
                        lemma_best_media_unique(ps, ac, i as int, rank as int, i2, r2);
                    }
                    return Some(produces[i].clone());
                }
                j = j + 1;
            }
            i = i + 1;
        }
        rank = rank + 1;
    }
    proof {
        assert forall|i: int, rk: int| !is_best_media(ps, ac, i, rk) by {
            if is_best_media(ps, ac, i, rk) {
                let j = choose|j: int| 0 <= j < ac.len() && #[trigger] pair_rank(ps, ac, i, j) == rk;
                assert(pair_rank(ps, ac, i, j) >= 3);
            }
        }
    }
    None
}

/// Whether the content type `ct` of a request body is one that the resource accepts: some
/// accepted type matches it, with `*` standing for any main or sub type.
pub fn acceptable_content_type(acceptable: &Vec<String>, ct: &str) -> (r: bool)
    ensures
        r == exists|k: int| 0 <= k < acceptable@.len() && media_rank(ct@, (#[trigger] acceptable@[k])@) < 3,
{
    let c = chars_of(ct);
    let mut k: usize = 0;
    while k < acceptable.len()
        invariant
            k <= acceptable@.len(),
            c@ == ct@,
            forall|j: int| 0 <= j < k ==> media_rank(ct@, (#[trigger] acceptable@[j])@) >= 3,
        decreases acceptable.len() - k,
    {
        let a = chars_of(acceptable[k].as_str());
        if media_rank_of(&c, &a) < 3 {
            return true;
        }
        k = k + 1;
    }
    false
}

/// Whether the accepted token `a` admits the provided value `p`.
pub fn token_matches_chars(kind: TokenKind, a: &Vec<char>, p: &Vec<char>) -> (r: bool)
    ensures
        r == token_matches(kind, a@, p@),
{
    let st = star_chars();
    if chars_eq(a.as_slice(), st.as_slice()) || chars_eq_ignore_case(a.as_slice(), p.as_slice()) {
        return true;
    }
    match kind {
        TokenKind::Language => {
            let dash: Vec<char> = vec!['-'];
            let pre = concat_chars(p.as_slice(), dash.as_slice());
            assert(pre@ =~= p@ + seq!['-']);
            chars_prefix_ignore_case(pre.as_slice(), a.as_slice())
        },
        _ => false,
    }
}

/// The index of the first provided value that the token admits.
fn first_match(kind: TokenKind, t: &Vec<char>, provided: &Vec<Vec<char>>) -> (r: Option<usize>)
    ensures
        match r {
            Some(k) => is_first_match(kind, t@, provided.deep_view(), k as int),
            None => forall|k: int| 0 <= k < provided@.len() ==> !token_matches(kind, t@, #[trigger] provided.deep_view()[k]),
        },
{
    let mut k: usize = 0;
    while k < provided.len()
        invariant
            k <= provided@.len(),
            forall|k2: int| 0 <= k2 < k ==> !token_matches(kind, t@, #[trigger] provided.deep_view()[k2]),
        decreases provided.len() - k,
    {
        assert(provided.deep_view()[k as int] == provided@[k as int]@);
        if token_matches_chars(kind, t, &provided[k]) {
            return Some(k);
        }
        k = k + 1;
    }
    None
}

/// Chooses from the accepted tokens `a` (with weights) and the provided values (see
/// `negotiated`).
pub fn negotiate(kind: TokenKind, a: &Vec<(Vec<char>, u32)>, provided: &Vec<Vec<char>>) -> (r: Option<Vec<char>>)
    ensures
        r.deep_view() == negotiated_value(kind, weighted(a.deep_view()), provided.deep_view()),
{
    let r = negotiate_choice(kind, a, provided);
    proof {
        lemma_negotiated_value(kind, weighted(a.deep_view()), provided.deep_view(), r.deep_view());
    }
    r
}

fn negotiate_choice(kind: TokenKind, a: &Vec<(Vec<char>, u32)>, provided: &Vec<Vec<char>>) -> (r: Option<Vec<char>>)
    ensures
        negotiated(kind, weighted(a.deep_view()), provided.deep_view(), r.deep_view()),
{
    let ghost av = weighted(a.deep_view());
    let ghost pv = provided.deep_view();
    let mut best: Option<usize> = None;
    let mut best_w: u32 = 0;
    let mut j: usize = 0;
    while j < a.len()
        invariant
            j <= a@.len(),
            av == weighted(a.deep_view()),
            pv == provided.deep_view(),
            av.len() == a@.len(),
            match best {
                Some(b) => b < j && best_w as int == av[b as int].1 && usable(kind, av, pv, b as int)
                    && (forall|j2: int| 0 <= j2 < j && usable(kind, av, pv, j2) ==> (#[trigger] av[j2]).1 <= av[b as int].1)
                    && (forall|j2: int| 0 <= j2 < b && usable(kind, av, pv, j2) ==> (#[trigger] av[j2]).1 < av[b as int].1),
                None => forall|j2: int| 0 <= j2 < j ==> !usable(kind, av, pv, j2),
            },
        decreases a.len() - j,
    {
        assert(av[j as int] == (a@[j as int].0@, a@[j as int].1 as int));
        let w = a[j].1;
        let ok = w > 0 && (provided.len() == 0 || first_match(kind, &a[j].0, provided).is_some());
        proof {
            if w > 0 && provided.len() > 0 {
                if ok {
                    let k = choose|k: int| is_first_match(kind, av[j as int].0, pv, k);
                    assert(token_matches(kind, av[j as int].0, pv[k]));
                }
            }
        }
        assert(ok == usable(kind, av, pv, j as int));
        match best {
            Some(b) => {
                if ok && w > best_w {
                    best = Some(j);
                    best_w = w;
                }
            },
            None => {
                if ok {
                    best = Some(j);
                    best_w = w;
                }
            },
        }
        j = j + 1;
    }
    match best {
        Some(b) => {
            if provided.len() == 0 {
                let r = copy_chars(&a[b].0);
                assert(r@ == av[b as int].0);
                assert(is_best_token(kind, av, pv, b as int));
                Some(r)
            } else {
                match first_match(kind, &a[b].0, provided) {
                    Some(k) => {
                        let r = copy_chars(&provided[k]);
                        assert(pv[k as int] == provided@[k as int]@);
                        assert(is_best_token(kind, av, pv, b as int));
                        Some(r)
                    },
                    None => {
                        proof {
                            let k = choose|k: int| 0 <= k < pv.len() && token_matches(kind, av[b as int].0, #[trigger] pv[k]);
                            assert(!token_matches(kind, a@[b as int].0@, provided.deep_view()[k]));
                        }
                        None
                    },
                }
            }
        },
        None => None,
    }
}

/// The accepted tokens of a header as characters with their weights.
fn token_list(values: &Vec<HeaderValue>) -> (r: Vec<(Vec<char>, u32)>)
    ensures
        weighted(r.deep_view()) == tokens_of(values.deep_view()),
{
    let mut r: Vec<(Vec<char>, u32)> = Vec::new();
    let mut i: usize = 0;
    while i < values.len()
        invariant
            i <= values@.len(),
            weighted(r.deep_view()) == tokens_of(values.deep_view()).take(i as int),
        decreases values.len() - i,
    {
        assert(values.deep_view()[i as int] == values@[i as int]@);
        let c = chars_of(values[i].value.as_str());
        let w = weight_of(&values[i]);
        let ghost before = r.deep_view();
        let ghost cv = c@;
        r.push((c, w));
        assert(r.deep_view() =~= before.push((cv, w)));
        assert(values.deep_view()[i as int].value == cv);
        assert(weighted(r.deep_view()) =~= weighted(before).push((cv, w as int)));
        assert(tokens_of(values.deep_view())[i as int] == (cv, w as int));
        assert(weighted(r.deep_view()) =~= tokens_of(values.deep_view()).take(i + 1));
        i = i + 1;
    }
    assert(tokens_of(values.deep_view()).take(values@.len() as int) =~= tokens_of(values.deep_view()));
    r
}

/// The tokens with `default` added at weight 1000 when none of them is `default` or `*`.
fn add_default(a: &mut Vec<(Vec<char>, u32)>, default: &str)
    ensures
        weighted(final(a).deep_view()) == with_default(
            weighted(old(a).deep_view()),
            default@,
        ),
{
    let ghost av = weighted(a.deep_view());
    let d = chars_of(default);
    let st = star_chars();
    let mut i: usize = 0;
    while i < a.len()
        invariant
            i <= a@.len(),
            av == weighted(a.deep_view()),
            d@ == default@,
            st@ == star(),
            forall|j: int| 0 <= j < i ==> !(eq_ignore_case((#[trigger] av[j]).0, default@) || av[j].0 == star()),
        decreases a.len() - i,
    {
        assert(av[i as int].0 == a@[i as int].0@);
        if chars_eq_ignore_case(a[i].0.as_slice(), d.as_slice()) || chars_eq(a[i].0.as_slice(), st.as_slice()) {
            assert(eq_ignore_case(av[i as int].0, default@) || av[i as int].0 == star());
            return;
        }
        i = i + 1;
    }
    a.push((d, 1000));
    assert(weighted(a.deep_view()) =~= av.push((default@, 1000)));
}

/// The language to respond in: the first provided language admitted by the accepted
/// language of greatest weight that admits one (the accepted language itself when none is
/// provided); `None` when no accepted language of weight above 0 admits one.
pub fn matching_language(provided: &Vec<String>, accept_language: &Vec<HeaderValue>) -> (r: Option<String>)
    ensures
        r.deep_view() == negotiated_value(TokenKind::Language, tokens_of(accept_language.deep_view()), provided.deep_view()),
{
    let a = token_list(accept_language);
    let p = crate::paths::chars_of_all(provided);
    match negotiate(TokenKind::Language, &a, &p) {
        Some(c) => Some(string_of(c.as_slice())),
        None => None,
    }
}

/// The charset to respond in, negotiated as for languages from the accepted charsets, with
/// `ISO-8859-1` accepted at full weight unless the request names it or `*`; `ISO-8859-1`
/// when the resource provides no charsets.
pub fn matching_charset(provided: &Vec<String>, accept_charset: &Vec<HeaderValue>) -> (r: Option<String>)
    ensures
        provided@.len() == 0 ==> r is Some && r->0@ == "ISO-8859-1"@,
        provided@.len() > 0 ==> r.deep_view() == negotiated_value(
            TokenKind::Charset,
            with_default(tokens_of(accept_charset.deep_view()), "ISO-8859-1"@),
            provided.deep_view(),
        ),
{
    if provided.len() == 0 {
        return Some(crate::text::string_from("ISO-8859-1"));
    }
    let mut a = token_list(accept_charset);
    add_default(&mut a, "ISO-8859-1");
    let p = crate::paths::chars_of_all(provided);
    match negotiate(TokenKind::Charset, &a, &p) {
        Some(c) => Some(string_of(c.as_slice())),
        None => None,
    }
}

/// The encoding to respond with, negotiated as for charsets with `identity` as the value
/// accepted unless named; `identity` when the resource provides no encodings.
pub fn matching_encoding(provided: &Vec<String>, accept_encoding: &Vec<HeaderValue>) -> (r: Option<String>)
    ensures
        provided@.len() == 0 ==> r is Some && r->0@ == "identity"@,
        provided@.len() > 0 ==> r.deep_view() == negotiated_value(
            TokenKind::Encoding,
            with_default(tokens_of(accept_encoding.deep_view()), "identity"@),
            provided.deep_view(),
        ),
{
    if provided.len() == 0 {
        return Some(crate::text::string_from("identity"));
    }
    let mut a = token_list(accept_encoding);
    add_default(&mut a, "identity");
    let p = crate::paths::chars_of_all(provided);
    match negotiate(TokenKind::Encoding, &a, &p) {
        Some(c) => Some(string_of(c.as_slice())),
        None => None,
    }
}

} // verus!
