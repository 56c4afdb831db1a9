//! The end of a request: the status of the decision the machine ended on, the headers of an
//! `OPTIONS` response, and the headers every response is completed with.
use vstd::prelude::*;
use crate::context::{WebmachineContext, WebmachineResponse, HttpDate, HeaderListModel, lookup_ci, put, lemma_put_keeps_present};
use crate::headers::{HeaderValue, HeaderValueModel, header_value_of};
use crate::decisions::Decision;
use crate::dates::{rfc2822_text, representable, formable, format_rfc2822};
use crate::state_machine::{ResourceProfile, basic_value, frame};
use crate::text::string_from;

verus! {

/// The status a request ends with: the code of an end, 204 for an `OPTIONS` request.
pub open spec fn end_status_of(d: Decision) -> Option<u16> {
    match d {
        Decision::End(code) => Some(code),
        Decision::A3Options => Some(204),
        _ => None,
    }
}

/// The status the request ends with on the decision `d`, if it is an end.
pub fn end_status(d: Decision) -> (r: Option<u16>)
    ensures
        r == end_status_of(d),
{
    match d {
        Decision::End(code) => Some(code),
        Decision::A3Options => Some(204),
        _ => None,
    }
}

/// The headers after setting each given header to plain values of its texts, in order.
pub open spec fn with_plain_headers(h: HeaderListModel, headers: Seq<(Seq<char>, Seq<Seq<char>>)>) -> HeaderListModel
    decreases headers.len(),
{
    if headers.len() == 0 {
        h
    } else {
        let last = headers.last();
        put(
            with_plain_headers(h, headers.drop_last()),
            last.0,
            Seq::new(last.1.len(), |i: int| basic_value(last.1[i])),
        )
    }
}

/// Sets each given header to plain values of its texts, as the headers of an `OPTIONS`
/// response.
pub fn add_headers(response: &mut WebmachineResponse, headers: &Vec<(String, Vec<String>)>)
    ensures
        final(response).headers.deep_view() == with_plain_headers(old(response).headers.deep_view(), headers.deep_view()),
        final(response).status == old(response).status,
        final(response).body == old(response).body,
{
    let ghost h0 = response.headers.deep_view();
    let mut i: usize = 0;
    while i < headers.len()
        invariant
            i <= headers@.len(),
            response.headers.deep_view() == with_plain_headers(h0, headers.deep_view().take(i as int)),
            response.status == old(response).status,
            response.body == old(response).body,
        decreases headers.len() - i,
    {
        assert(headers.deep_view().take(i + 1).drop_last() =~= headers.deep_view().take(i as int));
        assert(headers.deep_view()[i as int] == headers@[i as int].deep_view());
        let mut values: Vec<HeaderValue> = Vec::new();
        let texts = &headers[i].1;
        let mut k: usize = 0;
        while k < texts.len()
            invariant
                k <= texts@.len(),
                values.deep_view() == Seq::new(texts@.len(), |j: int| basic_value(texts.deep_view()[j])).take(k as int),
            decreases texts.len() - k,
        {
            let ghost before = values.deep_view();
            let v = HeaderValue::basic(texts[k].as_str());
            let ghost vv = v@;
            values.push(v);
            assert(values.deep_view() =~= before.push(vv));
            assert(texts.deep_view()[k as int] == texts@[k as int]@);
            assert(values.deep_view() =~= Seq::new(texts@.len(), |j: int| basic_value(texts.deep_view()[j])).take(k + 1));
            k = k + 1;
        }
        assert(Seq::new(texts@.len(), |j: int| basic_value(texts.deep_view()[j])).take(texts@.len() as int)
            =~= Seq::new(texts@.len(), |j: int| basic_value(texts.deep_view()[j])));
        response.add_header(headers[i].0.as_str(), values);
        i = i + 1;
    }
    assert(headers.deep_view().take(headers@.len() as int) =~= headers.deep_view());
}

/// The `Content-Type` of a response that has none: the selected media type (else
/// `application/json`) with the selected charset (else `ISO-8859-1`).
pub open spec fn content_type_value(c: WebmachineContext) -> HeaderValueModel {
    HeaderValueModel {
        value: match c.selected_media_type {
            Some(m) => m@,
            None => "application/json"@,
        },
        params: seq![(
            "charset"@,
            match c.selected_charset {
                Some(cs) => cs@,
                None => "ISO-8859-1"@,
            },
        )],
        quote: false,
    }
}

/// The values without repeats, each in the place of its first occurrence.
pub open spec fn dedup(s: Seq<HeaderValueModel>) -> Seq<HeaderValueModel>
    decreases s.len(),
{
    if s.len() == 0 {
        Seq::empty()
    } else {
        let r = dedup(s.drop_last());
        if r.contains(s.last()) {
            r
        } else {
            r.push(s.last())
        }
    }
}

/// The values of the `Vary` header: the resource's variances (when the response has no
/// `Vary` header yet), then each `Accept` header for which the resource provides more than
/// one choice.
pub open spec fn vary_values(h: HeaderListModel, p: ResourceProfile) -> Seq<HeaderValueModel> {
    let vars = p.variances.deep_view();
    (if lookup_ci(h, "Vary"@) is Some {
        Seq::empty()
    } else {
        Seq::new(vars.len(), |i: int| header_value_of(vars[i]))
    }) + (if p.languages_provided@.len() > 1 {
        seq![basic_value("Accept-Language"@)]
    } else {
        Seq::empty()
    }) + (if p.charsets_provided@.len() > 1 {
        seq![basic_value("Accept-Charset"@)]
    } else {
        Seq::empty()
    }) + (if p.encodings_provided@.len() > 1 {
        seq![basic_value("Accept-Encoding"@)]
    } else {
        Seq::empty()
    }) + (if p.produces@.len() > 1 {
        seq![basic_value("Accept"@)]
    } else {
        Seq::empty()
    })
}

/// The headers after setting `name` to the RFC 2822 text of the date, when there is a date
/// and `chrono` writes it.
pub open spec fn with_date(h: HeaderListModel, name: Seq<char>, d: Option<HttpDate>) -> HeaderListModel {
    match d {
        Some(dt) => match rfc2822_text(dt.seconds, dt.nanos, dt.offset) {
            Some(t) => put(h, name, seq![basic_value(t)]),
            None => h,
        },
        None => h,
    }
}

/// The headers with a `Content-Type` added when they have none.
pub open spec fn with_content_type(h: HeaderListModel, c: WebmachineContext) -> HeaderListModel {
    if lookup_ci(h, "Content-Type"@) is Some {
        h
    } else {
        put(h, "Content-Type"@, seq![content_type_value(c)])
    }
}

/// The headers with `Vary` set to the vary values without repeats, when there are any.
pub open spec fn with_vary(h: HeaderListModel, p: ResourceProfile) -> HeaderListModel {
    let vary = dedup(vary_values(h, p));
    if vary.len() > 0 {
        put(h, "Vary"@, vary)
    } else {
        h
    }
}

/// The headers with the quoted entity tag added, when there is one.
pub open spec fn with_etag(h: HeaderListModel, etag: Option<Seq<char>>) -> HeaderListModel {
    match etag {
        Some(e) => put(h, "ETag"@, seq![HeaderValueModel { value: e, params: Seq::empty(), quote: true }]),
        None => h,
    }
}

/// The headers a response is completed with: a `Content-Type` if it has none, the `Vary`
/// values (without repeats) if there are any, and for a `GET` or `HEAD` request the
/// resource's entity tag (quoted), expiry date and modification date.
pub open spec fn finalised_headers(
    c: WebmachineContext,
    p: ResourceProfile,
    etag: Option<Seq<char>>,
    expires: Option<HttpDate>,
    last_modified: Option<HttpDate>,
) -> HeaderListModel {
    let h2 = with_vary(with_content_type(c.response.headers.deep_view(), c), p);
    if c.request.method_is("GET"@) || c.request.method_is("HEAD"@) {
        with_date(with_date(with_etag(h2, etag), "Expires"@, expires), "Last-Modified"@, last_modified)
    } else {
        h2
    }
}

/// Whether two header values are the same.
pub fn same_value(a: &HeaderValue, b: &HeaderValue) -> (r: bool)
    ensures
        r == (a@ == b@),
{
    if !crate::text::str_eq(a.value.as_str(), b.value.as_str()) || a.quote != b.quote {
        return false;
    }
    if a.params.len() != b.params.len() {
        assert(a@.params.len() != b@.params.len());
        return false;
    }
    let mut i: usize = 0;
    while i < a.params.len()
        invariant
            i <= a.params@.len(),
            a.params@.len() == b.params@.len(),
            forall|j: int| 0 <= j < i ==> #[trigger] a.params.deep_view()[j] == b.params.deep_view()[j],
        decreases a.params.len() - i,
    {
        assert(a.params.deep_view()[i as int] == (a.params@[i as int].0@, a.params@[i as int].1@));
        assert(b.params.deep_view()[i as int] == (b.params@[i as int].0@, b.params@[i as int].1@));
        if !crate::text::str_eq(a.params[i].0.as_str(), b.params[i].0.as_str())
            || !crate::text::str_eq(a.params[i].1.as_str(), b.params[i].1.as_str()) {
            return false;
        }
        i = i + 1;
    }
    assert(a.params.deep_view() =~= b.params.deep_view());
    assert(a@ =~= b@);
    true
}

/// The values without repeats.
fn dedup_values(v: Vec<HeaderValue>) -> (r: Vec<HeaderValue>)
    ensures
        r.deep_view() == dedup(v.deep_view()),
{
    let mut r: Vec<HeaderValue> = Vec::new();
    let mut i: usize = 0;
    while i < v.len()
        invariant
            i <= v@.len(),
            r.deep_view() == dedup(v.deep_view().take(i as int)),
        decreases v.len() - i,
    {
        let ghost before = r.deep_view();
        assert(v.deep_view().take(i + 1).drop_last() =~= v.deep_view().take(i as int));
        assert(v.deep_view().take(i + 1).last() == v@[i as int]@);
        let mut seen = false;
        let mut k: usize = 0;
        while k < r.len()
            invariant
                k <= r@.len(),
                i < v@.len(),
                r.deep_view() == before,
                seen ==> before.contains(v@[i as int]@),
                !seen ==> forall|j: int| 0 <= j < k ==> #[trigger] before[j] != v@[i as int]@,
            decreases r.len() - k,
        {
            assert(before[k as int] == r@[k as int]@);
            if same_value(&r[k], &v[i]) {
                seen = true;
            }
            k = k + 1;
        }
        if !seen {
            let x = v[i].clone();
            r.push(x);
            assert(r.deep_view() =~= before.push(v@[i as int]@));
        }
        i = i + 1;
    }
    assert(v.deep_view().take(v@.len() as int) =~= v.deep_view());
    r
}

fn push_basic(v: &mut Vec<HeaderValue>, s: &str)
    ensures
        final(v).deep_view() == old(v).deep_view().push(basic_value(s@)),
{
    let ghost before = v.deep_view();
    let x = HeaderValue::basic(s);
    v.push(x);
    assert(v.deep_view() =~= before.push(basic_value(s@)));
}

/// Sets the header `name` to the RFC 2822 text of the date, when there is one.
fn put_date(response: &mut WebmachineResponse, name: &str, d: Option<HttpDate>)
    requires
        d matches Some(dt) ==> representable(dt),
    ensures
        final(response).headers.deep_view() == with_date(old(response).headers.deep_view(), name@, d),
        d matches Some(dt) ==> (rfc2822_text(dt.seconds, dt.nanos, dt.offset) is Some <==> formable(dt)),
        final(response).status == old(response).status,
        final(response).body == old(response).body,
{
    match d {
        Some(dt) => match format_rfc2822(&dt) {
            Some(t) => {
                let mut values: Vec<HeaderValue> = Vec::new();
                push_basic(&mut values, t.as_str());
                assert(values.deep_view() =~= seq![basic_value(t@)]);
                response.add_header(name, values);
            },
            None => {},
        },
        None => {},
    }
}

/// Adds the default `Content-Type` when the response has none.
fn add_content_type(ctx: &mut WebmachineContext)
    ensures
        final(ctx).response.headers.deep_view() == with_content_type(old(ctx).response.headers.deep_view(), *old(ctx)),
        final(ctx).response.status == old(ctx).response.status,
        final(ctx).response.body == old(ctx).response.body,
        final(ctx).request == old(ctx).request,
        final(ctx).selected_media_type == old(ctx).selected_media_type,
        final(ctx).selected_language == old(ctx).selected_language,
        final(ctx).selected_charset == old(ctx).selected_charset,
        final(ctx).selected_encoding == old(ctx).selected_encoding,
        final(ctx).new_resource == old(ctx).new_resource,
        final(ctx).redirect == old(ctx).redirect,
        final(ctx).metadata == old(ctx).metadata,
{
    if !ctx.response.has_header("Content-Type") {
        let value = match &ctx.selected_media_type {
            Some(m) => m.clone(),
            None => string_from("application/json"),
        };
        let charset = match &ctx.selected_charset {
            Some(cs) => cs.clone(),
            None => string_from("ISO-8859-1"),
        };
        let mut params: Vec<(String, String)> = Vec::new();
        params.push((string_from("charset"), charset));
        let ct = HeaderValue { value, params, quote: false };
        let mut values: Vec<HeaderValue> = Vec::new();
        let ghost cv = ct@;
        values.push(ct);
        assert(cv =~= content_type_value(*old(ctx)));
        assert(values.deep_view() =~= seq![content_type_value(*old(ctx))]);
        ctx.response.add_header("Content-Type", values);
    }
}

/// The values of the `Vary` header without repeats.
fn vary_of(response: &WebmachineResponse, profile: &ResourceProfile) -> (r: Vec<HeaderValue>)
    ensures
        r.deep_view() == dedup(vary_values(response.headers.deep_view(), *profile)),
{
    let mut vary: Vec<HeaderValue> = Vec::new();
    if !response.has_header("Vary") {
        let mut i: usize = 0;
        while i < profile.variances.len()
            invariant
                i <= profile.variances@.len(),
                vary.deep_view() == Seq::new(
                    profile.variances@.len(),
                    |j: int| header_value_of(profile.variances.deep_view()[j]),
                ).take(i as int),
            decreases profile.variances.len() - i,
        {
            let ghost before = vary.deep_view();
            let x = HeaderValue::parse_string(profile.variances[i].as_str());
            let ghost xv = x@;
            vary.push(x);
            assert(profile.variances.deep_view()[i as int] == profile.variances@[i as int]@);
            assert(vary.deep_view() =~= before.push(xv));
            assert(vary.deep_view() =~= Seq::new(
                profile.variances@.len(),
                |j: int| header_value_of(profile.variances.deep_view()[j]),
            ).take(i + 1));
            i = i + 1;
        }
        assert(Seq::new(profile.variances@.len(), |j: int| header_value_of(profile.variances.deep_view()[j])).take(
            profile.variances@.len() as int,
        ) =~= Seq::new(profile.variances@.len(), |j: int| header_value_of(profile.variances.deep_view()[j])));
    }
    if profile.languages_provided.len() > 1 {
        push_basic(&mut vary, "Accept-Language");
    }
    if profile.charsets_provided.len() > 1 {
        push_basic(&mut vary, "Accept-Charset");
    }
    if profile.encodings_provided.len() > 1 {
        push_basic(&mut vary, "Accept-Encoding");
    }
    if profile.produces.len() > 1 {
        push_basic(&mut vary, "Accept");
    }
    assert(vary.deep_view() =~= vary_values(response.headers.deep_view(), *profile));
    dedup_values(vary)
}

/// The resource renders the body of a `200` response to a `GET` request that has no body.
pub open spec fn renders_body(c: WebmachineContext) -> bool {
    c.response.body is None && c.response.status == 200 && c.request.method_is("GET"@)
}

/// Whether the resource is to render the response body.
pub fn needs_body(ctx: &WebmachineContext) -> (r: bool)
    ensures
        r == renders_body(*ctx),
{
    ctx.response.body.is_none() && ctx.response.status == 200 && ctx.request.is_get()
}

/// Takes what the resource rendered: a body becomes the response body, nothing leaves the
/// response as it is, and an error makes it a `500` response whose body is the error's text.
pub fn take_rendered(response: &mut WebmachineResponse, rendered: Result<Option<Vec<u8>>, Vec<u8>>)
    ensures
        final(response).headers == old(response).headers,
        match rendered {
            Ok(Some(b)) => final(response).body == Some(b) && final(response).status == old(response).status,
            Ok(None) => final(response).body == old(response).body && final(response).status == old(response).status,
            Err(e) => final(response).body == Some(e) && final(response).status == 500,
        },
{
    match rendered {
        Ok(Some(b)) => response.body = Some(b),
        Ok(None) => {},
        Err(e) => {
            response.status = 500;
            response.body = Some(e);
        },
    }
}

proof fn lemma_with_date_keeps(h: HeaderListModel, name: Seq<char>, d: Option<HttpDate>, key: Seq<char>)
    requires
        lookup_ci(h, key) is Some,
    ensures
        lookup_ci(with_date(h, name, d), key) is Some,
{
    match d {
        Some(dt) => match rfc2822_text(dt.seconds, dt.nanos, dt.offset) {
            Some(t) => lemma_put_keeps_present(h, name, seq![basic_value(t)], key),
            None => {},
        },
        None => {},
    }
}

/// Law: a finalised response always has a `Content-Type` header.
pub proof fn lemma_finalised_has_content_type(
    c: WebmachineContext,
    p: ResourceProfile,
    etag: Option<Seq<char>>,
    expires: Option<HttpDate>,
    last_modified: Option<HttpDate>,
)
    ensures
        lookup_ci(finalised_headers(c, p, etag, expires, last_modified), "Content-Type"@) is Some,
{
    let ct = "Content-Type"@;
    let h0 = c.response.headers.deep_view();
    let h1 = with_content_type(h0, c);
    if lookup_ci(h0, ct) is None {
        lemma_put_keeps_present(h0, ct, seq![content_type_value(c)], ct);
    }
    let vary = dedup(vary_values(h1, p));
    if vary.len() > 0 {
        lemma_put_keeps_present(h1, "Vary"@, vary, ct);
    }
    let h2 = with_vary(h1, p);
    match etag {
        Some(e) => lemma_put_keeps_present(
            h2,
            "ETag"@,
            seq![HeaderValueModel { value: e, params: Seq::empty(), quote: true }],
            ct,
        ),
        None => {},
    }
    let h3 = with_etag(h2, etag);
    lemma_with_date_keeps(h3, "Expires"@, expires, ct);
    lemma_with_date_keeps(with_date(h3, "Expires"@, expires), "Last-Modified"@, last_modified, ct);
}

/// Law: the values without repeats hold each value once, and hold exactly the values given.
pub proof fn lemma_dedup_distinct(s: Seq<HeaderValueModel>)
    ensures
        forall|i: int, j: int| 0 <= i < j < dedup(s).len() ==> dedup(s)[i] != dedup(s)[j],
        forall|x: HeaderValueModel| dedup(s).contains(x) <==> s.contains(x),
    decreases s.len(),
{
    if s.len() > 0 {
        let init = s.drop_last();
        lemma_dedup_distinct(init);
        let r = dedup(init);
        assert forall|x: HeaderValueModel| dedup(s).contains(x) <==> s.contains(x) by {
            if s.contains(x) {
                let k = choose|k: int| 0 <= k < s.len() && s[k] == x;
                if k < init.len() {
                    assert(init[k] == x);
                    assert(init.contains(x));
                } else {
                    assert(x == s.last());
                }
                if r.contains(s.last()) {
                } else {
                    if r.contains(x) {
                        let m = choose|m: int| 0 <= m < r.len() && r[m] == x;
                        assert(r.push(s.last())[m] == x);
                    } else {
                        assert(r.push(s.last())[r.len() as int] == x);
                    }
                }
            }
            if dedup(s).contains(x) {
                let m = choose|m: int| 0 <= m < dedup(s).len() && dedup(s)[m] == x;
                if m < r.len() {
                    assert(r[m] == x);
                    assert(r.contains(x));
                    assert(init.contains(x));
                    let k = choose|k: int| 0 <= k < init.len() && init[k] == x;
                    assert(s[k] == x);
                } else {
                    assert(x == s.last());
                    assert(s[s.len() - 1] == x);
                }
            }
        }
        if !r.contains(s.last()) {
            assert forall|i: int, j: int| 0 <= i < j < dedup(s).len() implies dedup(s)[i] != dedup(s)[j] by {
                if j == r.len() {
                    assert(dedup(s)[i] == r[i]);
                } else {
                    assert(dedup(s)[i] == r[i] && dedup(s)[j] == r[j]);
                }
            }
        }
    }
}

/// Completes the response headers (see `finalised_headers`), given the resource's entity
/// tag, expiry date and modification date.
pub fn finalise_headers(
    ctx: &mut WebmachineContext,
    profile: &ResourceProfile,
    etag: Option<String>,
    expires: Option<HttpDate>,
    last_modified: Option<HttpDate>,
)
    requires
        expires matches Some(d) ==> representable(d),
        last_modified matches Some(d) ==> representable(d),
    ensures
        final(ctx).response.headers.deep_view() == finalised_headers(
            *old(ctx),
            *profile,
            etag.deep_view(),
            expires,
            last_modified,
        ),
        frame(*old(ctx), *final(ctx)),
        (old(ctx).request.method_is("GET"@) || old(ctx).request.method_is("HEAD"@)) && expires is Some
            && formable(expires->0) ==> lookup_ci(final(ctx).response.headers.deep_view(), "Expires"@) is Some,
        (old(ctx).request.method_is("GET"@) || old(ctx).request.method_is("HEAD"@)) && last_modified is Some
            && formable(last_modified->0) ==> lookup_ci(final(ctx).response.headers.deep_view(), "Last-Modified"@)
            is Some,
        final(ctx).request == old(ctx).request,
        final(ctx).selected_media_type == old(ctx).selected_media_type,
        final(ctx).selected_language == old(ctx).selected_language,
        final(ctx).selected_charset == old(ctx).selected_charset,
        final(ctx).selected_encoding == old(ctx).selected_encoding,
        final(ctx).new_resource == old(ctx).new_resource,
{
    add_content_type(ctx);
    let unique = vary_of(&ctx.response, profile);
    if unique.len() > 0 {
        ctx.response.add_header("Vary", unique);
    }
    if ctx.request.is_get_or_head() {
        match etag {
            Some(e) => {
                let v = HeaderValue::basic(e.as_str()).quote();
                let mut values: Vec<HeaderValue> = Vec::new();
                let ghost vv = v@;
                values.push(v);
                assert(values.deep_view() =~= seq![vv]);
                ctx.response.add_header("ETag", values);
            },
            None => {},
        }
        let ghost h3 = ctx.response.headers.deep_view();
        put_date(&mut ctx.response, "Expires", expires);
        let ghost h4 = ctx.response.headers.deep_view();
        put_date(&mut ctx.response, "Last-Modified", last_modified);
        proof {
            if expires is Some && formable(expires->0) {
                let e = expires->0;
                let t = rfc2822_text(e.seconds, e.nanos, e.offset)->0;
                lemma_put_keeps_present(h3, "Expires"@, seq![basic_value(t)], "Expires"@);
                lemma_with_date_keeps(h4, "Last-Modified"@, last_modified, "Expires"@);
            }
            if last_modified is Some && formable(last_modified->0) {
                let m = last_modified->0;
                let t = rfc2822_text(m.seconds, m.nanos, m.offset)->0;
                lemma_put_keeps_present(h4, "Last-Modified"@, seq![basic_value(t)], "Last-Modified"@);
            }
        }
    }
}

} // verus!
