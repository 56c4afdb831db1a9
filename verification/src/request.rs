//! Building the request the state machine works on from the parts of an HTTP request.
use vstd::prelude::*;
use crate::context::{
    WebmachineRequest, HeaderListModel, lookup, put, lemma_lookup_first, lemma_put_at, keys_unique,
    lemma_put_keeps_keys_unique, lemma_put_lookup_same, lemma_put_lookup_other,
};
use crate::headers::{HeaderValue, HeaderValueModel, header_value_of, parse_header_values_spec, parse_header_values, copy_values};
use crate::query::{parse_query, parse_query_spec};
use crate::state_machine::listed;
use crate::text::{string_from, str_eq_ignore_case, eq_ignore_case};

verus! {

/// The headers whose values are lists separated by commas.
pub open spec fn multi_value_headers() -> Seq<Seq<char>> {
    seq![
        "accept"@,
        "accept-charset"@,
        "accept-encoding"@,
        "accept-language"@,
        "accept-patch"@,
        "accept-ranges"@,
        "access-control-allow-headers"@,
        "access-control-allow-methods"@,
        "access-control-expose-headers"@,
        "access-control-request-headers"@,
        "allow"@,
        "cache-control"@,
        "connection"@,
        "content-encoding"@,
        "content-language"@,
        "expect"@,
        "if-match"@,
        "if-none-match"@,
        "pragma"@,
        "te"@,
        "trailer"@,
        "transfer-encoding"@,
        "upgrade"@,
        "vary"@,
        "via"@,
        "warning"@,
    ]
}

/// The values of one header line: a list separated by commas for the headers that hold
/// lists, else one value.
pub open spec fn line_values(name: Seq<char>, text: Seq<char>) -> Seq<HeaderValueModel> {
    if listed(multi_value_headers(), name) {
        parse_header_values_spec(text)
    } else {
        seq![header_value_of(text)]
    }
}

/// The request headers from the header lines in order: each name once, with the values of
/// all its lines in order.
pub open spec fn headers_of(lines: Seq<(Seq<char>, Seq<char>)>) -> HeaderListModel
    decreases lines.len(),
{
    if lines.len() == 0 {
        Seq::empty()
    } else {
        let rest = headers_of(lines.drop_last());
        let (name, text) = lines.last();
        let before = match lookup(rest, name) {
            Some(v) => v,
            None => Seq::empty(),
        };
        put(rest, name, before + line_values(name, text))
    }
}

/// Some header line has the name `k`.
pub open spec fn named(lines: Seq<(Seq<char>, Seq<char>)>, k: Seq<char>) -> bool {
    exists|i: int| 0 <= i < lines.len() && (#[trigger] lines[i]).0 == k
}

/// The values of all the lines named `k`, in the order of the lines.
pub open spec fn values_for(lines: Seq<(Seq<char>, Seq<char>)>, k: Seq<char>) -> Seq<HeaderValueModel>
    decreases lines.len(),
{
    if lines.len() == 0 {
        Seq::empty()
    } else {
        let last = lines.last();
        values_for(lines.drop_last(), k) + if last.0 == k {
            line_values(last.0, last.1)
        } else {
            Seq::empty()
        }
    }
}

/// Law: the request headers hold each name once.
pub proof fn lemma_headers_names_unique(lines: Seq<(Seq<char>, Seq<char>)>)
    ensures
        keys_unique(headers_of(lines)),
    decreases lines.len(),
{
    if lines.len() > 0 {
        lemma_headers_names_unique(lines.drop_last());
        let rest = headers_of(lines.drop_last());
        let (name, text) = lines.last();
        let before = match lookup(rest, name) {
            Some(v) => v,
            None => Seq::empty(),
        };
        lemma_put_keeps_keys_unique(rest, name, before + line_values(name, text));
    }
}

/// Law: reading a name from the request headers gives the values of all the lines with that
/// name, in order, and nothing when no line has it.
pub proof fn lemma_headers_lookup(lines: Seq<(Seq<char>, Seq<char>)>, k: Seq<char>)
    ensures
        lookup(headers_of(lines), k) == if named(lines, k) {
            Some(values_for(lines, k))
        } else {
            None::<Seq<HeaderValueModel>>
        },
    decreases lines.len(),
{
    if lines.len() > 0 {
        let init = lines.drop_last();
        lemma_headers_lookup(init, k);
        let rest = headers_of(init);
        let (name, text) = lines.last();
        let before = match lookup(rest, name) {
            Some(v) => v,
            None => Seq::empty(),
        };
        assert(named(lines, k) <==> named(init, k) || name == k) by {
            if named(lines, k) {
                let i = choose|i: int| 0 <= i < lines.len() && (#[trigger] lines[i]).0 == k;
                if i < init.len() {
                    assert(init[i] == lines[i]);
                }
            }
            if named(init, k) {
                let i = choose|i: int| 0 <= i < init.len() && (#[trigger] init[i]).0 == k;
                assert(lines[i] == init[i]);
            }
            if name == k {
                assert(lines[lines.len() - 1].0 == k);
            }
        }
        if name == k {
            lemma_put_lookup_same(rest, name, before + line_values(name, text));
            if !named(init, k) {
                lemma_values_for_absent(init, k);
            }
        } else {
            lemma_put_lookup_other(rest, name, before + line_values(name, text), k);
            assert(values_for(lines, k) =~= values_for(init, k));
        }
    } else {
        assert(!named(lines, k));
    }
}

proof fn lemma_values_for_absent(lines: Seq<(Seq<char>, Seq<char>)>, k: Seq<char>)
    requires
        !named(lines, k),
    ensures
        values_for(lines, k) == Seq::<HeaderValueModel>::empty(),
    decreases lines.len(),
{
    if lines.len() > 0 {
        let init = lines.drop_last();
        assert(!named(init, k)) by {
            if named(init, k) {
                let i = choose|i: int| 0 <= i < init.len() && (#[trigger] init[i]).0 == k;
                assert(lines[i] == init[i]);
            }
        }
        lemma_values_for_absent(init, k);
        assert(lines[lines.len() - 1].0 != k);
        assert(values_for(lines, k) =~= Seq::<HeaderValueModel>::empty());
    }
}

/// A byte of visible ASCII text, as header values are written: a tab, or a character from the
/// space to `~`.
pub open spec fn is_visible_ascii(b: u8) -> bool {
    b == 9 || (32 <= b && b < 127)
}

/// The characters of ASCII bytes.
pub open spec fn ascii_text(bytes: Seq<u8>) -> Seq<char> {
    Seq::new(bytes.len(), |i: int| bytes[i] as char)
}

/// The text of a header value from its bytes, when they are all visible ASCII; a value with
/// any other byte is not read.
pub fn header_text(bytes: &[u8]) -> (r: Option<String>)
    ensures
        (forall|i: int| 0 <= i < bytes@.len() ==> is_visible_ascii(#[trigger] bytes@[i])) ==> r is Some
            && r->0@ == ascii_text(bytes@),
        !(forall|i: int| 0 <= i < bytes@.len() ==> is_visible_ascii(#[trigger] bytes@[i])) ==> r is None,
{
    let mut cs: Vec<char> = Vec::new();
    let mut i: usize = 0;
    while i < bytes.len()
        invariant
            i <= bytes@.len(),
            cs@ == ascii_text(bytes@.take(i as int)),
            forall|j: int| 0 <= j < i ==> is_visible_ascii(#[trigger] bytes@[j]),
        decreases bytes.len() - i,
    {
        let b = bytes[i];
        if !(b == 9 || (32 <= b && b < 127)) {
            return None;
        }
        cs.push(b as char);
        assert(cs@ =~= ascii_text(bytes@.take(i + 1)));
        i = i + 1;
    }
    assert(bytes@.take(bytes@.len() as int) =~= bytes@);
    Some(crate::text::string_of(cs.as_slice()))
}

/// The standard HTTP headers whose values are lists separated by commas (names compared
/// ignoring ASCII case).
pub open spec fn list_valued(name: Seq<char>) -> bool {
    ||| eq_ignore_case("accept"@, name)
    ||| eq_ignore_case("accept-charset"@, name)
    ||| eq_ignore_case("accept-encoding"@, name)
    ||| eq_ignore_case("accept-language"@, name)
    ||| eq_ignore_case("accept-patch"@, name)
    ||| eq_ignore_case("accept-ranges"@, name)
    ||| eq_ignore_case("access-control-allow-headers"@, name)
    ||| eq_ignore_case("access-control-allow-methods"@, name)
    ||| eq_ignore_case("access-control-expose-headers"@, name)
    ||| eq_ignore_case("access-control-request-headers"@, name)
    ||| eq_ignore_case("allow"@, name)
    ||| eq_ignore_case("cache-control"@, name)
    ||| eq_ignore_case("connection"@, name)
    ||| eq_ignore_case("content-encoding"@, name)
    ||| eq_ignore_case("content-language"@, name)
    ||| eq_ignore_case("expect"@, name)
    ||| eq_ignore_case("if-match"@, name)
    ||| eq_ignore_case("if-none-match"@, name)
    ||| eq_ignore_case("pragma"@, name)
    ||| eq_ignore_case("te"@, name)
    ||| eq_ignore_case("trailer"@, name)
    ||| eq_ignore_case("transfer-encoding"@, name)
    ||| eq_ignore_case("upgrade"@, name)
    ||| eq_ignore_case("vary"@, name)
    ||| eq_ignore_case("via"@, name)
    ||| eq_ignore_case("warning"@, name)
}

/// Law: a line of a list-valued header (such as `Accept-Encoding: gzip, deflate`) gives one
/// value for each comma-separated item; a line of any other header gives one value, the whole
/// line.
pub proof fn lemma_list_valued_lines(name: Seq<char>, text: Seq<char>)
    ensures
        list_valued(name) ==> line_values(name, text) == parse_header_values_spec(text),
        !list_valued(name) ==> line_values(name, text) == seq![header_value_of(text)],
{
    let m = multi_value_headers();
    assert(m.len() == 26);
    assert(m[0] == "accept"@);
    assert(m[1] == "accept-charset"@);
    assert(m[2] == "accept-encoding"@);
    assert(m[3] == "accept-language"@);
    assert(m[4] == "accept-patch"@);
    assert(m[5] == "accept-ranges"@);
    assert(m[6] == "access-control-allow-headers"@);
    assert(m[7] == "access-control-allow-methods"@);
    assert(m[8] == "access-control-expose-headers"@);
    assert(m[9] == "access-control-request-headers"@);
    assert(m[10] == "allow"@);
    assert(m[11] == "cache-control"@);
    assert(m[12] == "connection"@);
    assert(m[13] == "content-encoding"@);
    assert(m[14] == "content-language"@);
    assert(m[15] == "expect"@);
    assert(m[16] == "if-match"@);
    assert(m[17] == "if-none-match"@);
    assert(m[18] == "pragma"@);
    assert(m[19] == "te"@);
    assert(m[20] == "trailer"@);
    assert(m[21] == "transfer-encoding"@);
    assert(m[22] == "upgrade"@);
    assert(m[23] == "vary"@);
    assert(m[24] == "via"@);
    assert(m[25] == "warning"@);
    if list_valued(name) {
        assert(listed(m, name));
    } else {
        assert(!listed(m, name));
    }
}

/// Whether the header holds a list separated by commas.
pub fn is_multi_value_header(name: &str) -> (r: bool)
    ensures
        r == listed(multi_value_headers(), name@),
{
    let names = vec![
        "accept",
        "accept-charset",
        "accept-encoding",
        "accept-language",
        "accept-patch",
        "accept-ranges",
        "access-control-allow-headers",
        "access-control-allow-methods",
        "access-control-expose-headers",
        "access-control-request-headers",
        "allow",
        "cache-control",
        "connection",
        "content-encoding",
        "content-language",
        "expect",
        "if-match",
        "if-none-match",
        "pragma",
        "te",
        "trailer",
        "transfer-encoding",
        "upgrade",
        "vary",
        "via",
        "warning",
    ];
    assert(names.deep_view() =~= multi_value_headers());
    let mut i: usize = 0;
    while i < names.len()
        invariant
            i <= names@.len(),
            names.deep_view() == multi_value_headers(),
            forall|j: int| 0 <= j < i ==> !crate::text::eq_ignore_case(#[trigger] multi_value_headers()[j], name@),
        decreases names.len() - i,
    {
        assert(names.deep_view()[i as int] == names@[i as int]@);
        if str_eq_ignore_case(names[i], name) {
            return true;
        }
        i = i + 1;
    }
    false
}

/// The values of one header line.
pub fn line_values_of(name: &str, text: &str) -> (r: Vec<HeaderValue>)
    ensures
        r.deep_view() == line_values(name@, text@),
{
    if is_multi_value_header(name) {
        parse_header_values(text)
    } else {
        let v = HeaderValue::parse_string(text);
        let mut r: Vec<HeaderValue> = Vec::new();
        let ghost vv = v@;
        r.push(v);
        assert(r.deep_view() =~= seq![vv]);
        r
    }
}

/// Adds the values of one header line to the headers.
fn add_line(headers: &mut Vec<(String, Vec<HeaderValue>)>, name: &str, text: &str)
    ensures
        final(headers).deep_view() == ({
            let h = old(headers).deep_view();
            let before = match lookup(h, name@) {
                Some(v) => v,
                None => Seq::empty(),
            };
            put(h, name@, before + line_values(name@, text@))
        }),
{
    let ghost h = headers.deep_view();
    let values = line_values_of(name, text);
    let mut i: usize = 0;
    while i < headers.len()
        invariant_except_break
            i <= headers@.len(),
            h == headers.deep_view(),
            forall|j: int| 0 <= j < i ==> #[trigger] h[j].0 != name@,
        ensures
            i <= headers@.len(),
            h == headers.deep_view(),
            forall|j: int| 0 <= j < i ==> #[trigger] h[j].0 != name@,
            i < headers@.len() ==> h[i as int].0 == name@,
        decreases headers.len() - i,
    {
        assert(h[i as int].0 == headers@[i as int].0@);
        if crate::text::str_eq(headers[i].0.as_str(), name) {
            break;
        }
        i = i + 1;
    }
    proof {
        lemma_lookup_first(h, name@, i as int);
    }
    if i < headers.len() {
        let mut all = copy_values(&headers[i].1);
        let ghost old_vals = h[i as int].1;
        let mut k: usize = 0;
        while k < values.len()
            invariant
                k <= values@.len(),
                all.deep_view() == old_vals + values.deep_view().take(k as int),
            decreases values.len() - k,
        {
            let ghost before = all.deep_view();
            let x = values[k].clone();
            let ghost xv = x@;
            all.push(x);
            assert(values.deep_view()[k as int] == xv);
            assert(all.deep_view() =~= before.push(xv));
            assert(values.deep_view().take(k + 1) =~= values.deep_view().take(k as int).push(xv));
            assert(all.deep_view() =~= old_vals + values.deep_view().take(k + 1));
            k = k + 1;
        }
        assert(values.deep_view().take(values@.len() as int) =~= values.deep_view());
        proof {
            lemma_put_at(h, name@, old_vals + line_values(name@, text@), i as int);
        }
        let ghost all_v = all.deep_view();
        let key = string_from(name);
        headers.set(i, (key, all));
        assert(headers.deep_view() =~= h.update(i as int, (name@, all_v)));
    } else {
        proof {
            lemma_put_at(h, name@, Seq::<HeaderValueModel>::empty() + line_values(name@, text@), i as int);
        }
        let ghost vals = values.deep_view();
        assert(Seq::<HeaderValueModel>::empty() + vals =~= vals);
        let key = string_from(name);
        headers.push((key, values));
        assert(headers.deep_view() =~= h.push((name@, vals)));
    }
}

/// The request headers from the header lines of an HTTP request, in order (see
/// `headers_of`).
pub fn headers_from_lines(lines: &Vec<(String, String)>) -> (r: Vec<(String, Vec<HeaderValue>)>)
    ensures
        r.deep_view() == headers_of(lines.deep_view()),
        keys_unique(r.deep_view()),
{
    proof {
        lemma_headers_names_unique(lines.deep_view());
    }
    let mut r: Vec<(String, Vec<HeaderValue>)> = Vec::new();
    let mut i: usize = 0;
    while i < lines.len()
        invariant
            i <= lines@.len(),
            r.deep_view() == headers_of(lines.deep_view().take(i as int)),
        decreases lines.len() - i,
    {
        assert(lines.deep_view().take(i + 1).drop_last() =~= lines.deep_view().take(i as int));
        assert(lines.deep_view()[i as int] == (lines@[i as int].0@, lines@[i as int].1@));
        add_line(&mut r, lines[i].0.as_str(), lines[i].1.as_str());
        i = i + 1;
    }
    assert(lines.deep_view().take(lines@.len() as int) =~= lines.deep_view());
    r
}

/// The request for the state machine from the parts of an HTTP request: its method, its
/// path, its query string, its header lines and its body (none when it is empty).
pub fn request_from_parts(
    method: &str,
    path: &str,
    query: &str,
    lines: &Vec<(String, String)>,
    body: Vec<u8>,
) -> (r: WebmachineRequest)
    ensures
        r.request_path@ == path@,
        r.base_path@ == "/"@,
        r.sub_path is None,
        r.path_vars@.len() == 0,
        r.method@ == method@,
        r.headers.deep_view() == headers_of(lines.deep_view()),
        keys_unique(r.headers.deep_view()),
        keys_unique(r.query.deep_view()),
        r.query.deep_view() == parse_query_spec(query@),
        body@.len() == 0 ==> r.body is None,
        body@.len() > 0 ==> r.body == Some(body),
{
    proof {
        lemma_headers_names_unique(lines.deep_view());
        crate::query::lemma_query_names_unique(query@);
    }
    let body_len = body.len();
    WebmachineRequest {
        request_path: string_from(path),
        base_path: string_from("/"),
        sub_path: None,
        path_vars: Vec::new(),
        method: string_from(method),
        headers: headers_from_lines(lines),
        body: if body_len == 0 {
            None
        } else {
            Some(body)
        },
        query: parse_query(query),
    }
}

} // verus!
