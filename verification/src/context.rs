//! The request, the response and the context that the state machine works on.
use vstd::prelude::*;
use crate::headers::{HeaderValue, HeaderValueModel, copy_values};
use crate::text::{eq_ignore_case, chars_of, chars_eq_ignore_case, str_eq_ignore_case, string_from, string_of, char_from_ascii, concat_chars};

verus! {

broadcast use crate::views::lemma_char_vec_deep_view;

/// A header list as plain sequences: names with their values, in order.
pub type HeaderListModel = Seq<(Seq<char>, Seq<HeaderValueModel>)>;

/// The values of the first header whose name equals `name` when ASCII case is ignored.
pub open spec fn lookup_ci<V>(h: Seq<(Seq<char>, V)>, name: Seq<char>) -> Option<V>
    decreases h.len(),
{
    if h.len() == 0 {
        None
    } else if eq_ignore_case(h[0].0, name) {
        Some(h[0].1)
    } else {
        lookup_ci(h.drop_first(), name)
    }
}

/// The value stored under exactly the key `k`, the first one if there are several.
pub open spec fn lookup<V>(h: Seq<(Seq<char>, V)>, k: Seq<char>) -> Option<V>
    decreases h.len(),
{
    if h.len() == 0 {
        None
    } else if h[0].0 == k {
        Some(h[0].1)
    } else {
        lookup(h.drop_first(), k)
    }
}

/// `h` with the value under the key `k` replaced by `v`, or `(k, v)` added at the end when
/// `k` is not there.
pub open spec fn put<V>(h: Seq<(Seq<char>, V)>, k: Seq<char>, v: V) -> Seq<(Seq<char>, V)>
    decreases h.len(),
{
    if h.len() == 0 {
        seq![(k, v)]
    } else if h[0].0 == k {
        seq![(k, v)] + h.drop_first()
    } else {
        seq![h[0]] + put(h.drop_first(), k, v)
    }
}

/// The values of a header in a header list (none when it is absent), the name compared
/// ignoring ASCII case.
pub open spec fn header_values(h: HeaderListModel, name: Seq<char>) -> Seq<HeaderValueModel> {
    match lookup_ci(h, name) {
        Some(v) => v,
        None => Seq::empty(),
    }
}

/// Some value of the header has the text `value`.
pub open spec fn has_value(h: HeaderListModel, name: Seq<char>, value: Seq<char>) -> bool {
    exists|i: int|
        0 <= i < header_values(h, name).len() && (#[trigger] header_values(h, name)[i]).value == value
}

proof fn lemma_lookup_ci_skip<V>(h: Seq<(Seq<char>, V)>, name: Seq<char>, i: int)
    requires
        0 <= i <= h.len(),
        forall|j: int| 0 <= j < i ==> !eq_ignore_case(#[trigger] h[j].0, name),
    ensures
        lookup_ci(h, name) == lookup_ci(h.skip(i), name),
    decreases i,
{
    if i > 0 {
        assert(h.drop_first().skip(i - 1) =~= h.skip(i));
        assert forall|j: int| 0 <= j < i - 1 implies !eq_ignore_case(#[trigger] h.drop_first()[j].0, name) by {
            assert(h.drop_first()[j] == h[j + 1]);
        }
        lemma_lookup_ci_skip(h.drop_first(), name, i - 1);
    } else {
        assert(h.skip(0) =~= h);
    }
}

proof fn lemma_lookup_skip<V>(h: Seq<(Seq<char>, V)>, k: Seq<char>, i: int)
    requires
        0 <= i <= h.len(),
        forall|j: int| 0 <= j < i ==> #[trigger] h[j].0 != k,
    ensures
        lookup(h, k) == lookup(h.skip(i), k),
    decreases i,
{
    if i > 0 {
        assert(h.drop_first().skip(i - 1) =~= h.skip(i));
        assert forall|j: int| 0 <= j < i - 1 implies #[trigger] h.drop_first()[j].0 != k by {
            assert(h.drop_first()[j] == h[j + 1]);
        }
        lemma_lookup_skip(h.drop_first(), k, i - 1);
    } else {
        assert(h.skip(0) =~= h);
    }
}

/// Where `put` stores its value: at the first entry with the key, else at the end.
pub proof fn lemma_put_at<V>(h: Seq<(Seq<char>, V)>, k: Seq<char>, v: V, i: int)
    requires
        0 <= i <= h.len(),
        forall|j: int| 0 <= j < i ==> #[trigger] h[j].0 != k,
        i < h.len() ==> h[i].0 == k,
    ensures
        i < h.len() ==> put(h, k, v) == h.update(i, (k, v)),
        i == h.len() ==> put(h, k, v) == h.push((k, v)),
    decreases i,
{
    if i > 0 {
        assert forall|j: int| 0 <= j < i - 1 implies #[trigger] h.drop_first()[j].0 != k by {
            assert(h.drop_first()[j] == h[j + 1]);
        }
        lemma_put_at(h.drop_first(), k, v, i - 1);
        assert(h[0].0 != k);
        if i < h.len() {
            assert(put(h, k, v) =~= h.update(i, (k, v)));
        } else {
            assert(put(h, k, v) =~= h.push((k, v)));
        }
    } else {
        if h.len() == 0 {
            assert(put(h, k, v) =~= h.push((k, v)));
        } else {
            assert(put(h, k, v) =~= h.update(0, (k, v)));
        }
    }
}

/// `lookup` finds the first entry with the key.
pub proof fn lemma_lookup_first<V>(h: Seq<(Seq<char>, V)>, k: Seq<char>, i: int)
    requires
        0 <= i <= h.len(),
        forall|j: int| 0 <= j < i ==> #[trigger] h[j].0 != k,
        i < h.len() ==> h[i].0 == k,
    ensures
        i < h.len() ==> lookup(h, k) == Some(h[i].1),
        i == h.len() ==> lookup(h, k) is None,
{
    lemma_lookup_skip(h, k, i);
    if i < h.len() {
        assert(h.skip(i)[0] == h[i]);
    }
}

/// Each name occurs once.
pub open spec fn keys_unique<V>(m: Seq<(Seq<char>, V)>) -> bool {
    forall|i: int, j: int| 0 <= i < j < m.len() ==> (#[trigger] m[i]).0 != (#[trigger] m[j]).0
}

/// The keys after `put` are `k` and keys that were there before.
pub proof fn lemma_put_keys<V>(h: Seq<(Seq<char>, V)>, k: Seq<char>, v: V)
    ensures
        forall|i: int|
            0 <= i < put(h, k, v).len() ==> (#[trigger] put(h, k, v)[i]).0 == k || exists|j: int|
                0 <= j < h.len() && h[j].0 == put(h, k, v)[i].0,
    decreases h.len(),
{
    if h.len() > 0 && h[0].0 != k {
        lemma_put_keys(h.drop_first(), k, v);
        let p = put(h, k, v);
        assert forall|i: int| 0 <= i < p.len() implies (#[trigger] p[i]).0 == k || exists|j: int|
            0 <= j < h.len() && h[j].0 == p[i].0 by {
            if i == 0 {
                assert(h[0].0 == p[0].0);
            } else {
                assert(p[i] == put(h.drop_first(), k, v)[i - 1]);
                if p[i].0 != k {
                    let j = choose|j: int| 0 <= j < h.drop_first().len() && h.drop_first()[j].0 == put(h.drop_first(), k, v)[i - 1].0;
                    assert(h[j + 1].0 == p[i].0);
                }
            }
        }
    } else if h.len() > 0 {
        let p = put(h, k, v);
        assert forall|i: int| 0 <= i < p.len() implies (#[trigger] p[i]).0 == k || exists|j: int|
            0 <= j < h.len() && h[j].0 == p[i].0 by {
            if i > 0 {
                assert(h[i].0 == p[i].0);
            }
        }
    }
}

/// Law: `put` keeps each key once.
pub proof fn lemma_put_keeps_keys_unique<V>(h: Seq<(Seq<char>, V)>, k: Seq<char>, v: V)
    requires
        keys_unique(h),
    ensures
        keys_unique(put(h, k, v)),
    decreases h.len(),
{
    if h.len() > 0 && h[0].0 != k {
        let t = h.drop_first();
        assert(keys_unique(t)) by {
            assert forall|i: int, j: int| 0 <= i < j < t.len() implies (#[trigger] t[i]).0 != (#[trigger] t[j]).0 by {
                assert(t[i] == h[i + 1] && t[j] == h[j + 1]);
            }
        }
        lemma_put_keeps_keys_unique(t, k, v);
        lemma_put_keys(t, k, v);
        let p = put(h, k, v);
        assert forall|i: int, j: int| 0 <= i < j < p.len() implies (#[trigger] p[i]).0 != (#[trigger] p[j]).0 by {
            assert(p[j] == put(t, k, v)[j - 1]);
            if i == 0 {
                if put(t, k, v)[j - 1].0 != k {
                    let m = choose|m: int| 0 <= m < t.len() && t[m].0 == put(t, k, v)[j - 1].0;
                    assert(h[m + 1].0 == p[j].0);
                    assert(h[0].0 != h[m + 1].0);
                }
            } else {
                assert(p[i] == put(t, k, v)[i - 1]);
            }
        }
    } else if h.len() > 0 {
        let p = put(h, k, v);
        assert forall|i: int, j: int| 0 <= i < j < p.len() implies (#[trigger] p[i]).0 != (#[trigger] p[j]).0 by {
            if i == 0 {
                assert(p[j] == h[j]);
                assert(h[0].0 != h[j].0);
            } else {
                assert(p[i] == h[i] && p[j] == h[j]);
            }
        }
    }
}

/// Storing a value keeps findable, by name with ASCII case ignored, every key that was
/// findable before and the key stored.
pub proof fn lemma_put_keeps_present<V>(h: Seq<(Seq<char>, V)>, k: Seq<char>, v: V, name: Seq<char>)
    requires
        lookup_ci(h, name) is Some || eq_ignore_case(k, name),
    ensures
        lookup_ci(put(h, k, v), name) is Some,
    decreases h.len(),
{
    let p = put(h, k, v);
    if h.len() == 0 {
        assert(p[0].0 == k);
    } else if h[0].0 == k {
        assert(p[0].0 == k);
        assert(p.drop_first() =~= h.drop_first());
    } else {
        assert(p[0] == h[0]);
        assert(p.drop_first() =~= put(h.drop_first(), k, v));
        if !eq_ignore_case(h[0].0, name) {
            lemma_put_keeps_present(h.drop_first(), k, v, name);
        }
    }
}

/// Storing a value and reading the same key gives that value back.
pub proof fn lemma_put_lookup_same<V>(h: Seq<(Seq<char>, V)>, k: Seq<char>, v: V)
    ensures
        lookup(put(h, k, v), k) == Some(v),
    decreases h.len(),
{
    if h.len() > 0 && h[0].0 != k {
        lemma_put_lookup_same(h.drop_first(), k, v);
        assert(put(h, k, v).drop_first() =~= put(h.drop_first(), k, v));
    }
}

/// Storing a value leaves every other key as it was.
pub proof fn lemma_put_lookup_other<V>(h: Seq<(Seq<char>, V)>, k: Seq<char>, v: V, other: Seq<char>)
    requires
        other != k,
    ensures
        lookup(put(h, k, v), other) == lookup(h, other),
    decreases h.len(),
{
    let p = put(h, k, v);
    if h.len() == 0 {
        assert(p[0].0 == k);
        assert(p.drop_first() =~= Seq::<(Seq<char>, V)>::empty());
        assert(lookup(p, other) == lookup(p.drop_first(), other));
    } else if h[0].0 == k {
        assert(p[0].0 == k);
        assert(p.drop_first() =~= h.drop_first());
        assert(lookup(p, other) == lookup(p.drop_first(), other));
    } else {
        lemma_put_lookup_other(h.drop_first(), k, v, other);
        assert(p[0] == h[0]);
        assert(p.drop_first() =~= put(h.drop_first(), k, v));
        if h[0].0 != other {
            assert(lookup(p, other) == lookup(p.drop_first(), other));
        }
    }
}

/// A header value with the text `s` and nothing else.
pub open spec fn plain_value(s: Seq<char>) -> HeaderValueModel {
    HeaderValueModel { value: s, params: Seq::empty(), quote: false }
}

/// A moment in time as read from a date header or given by a resource: seconds since the
/// Unix epoch, the nanoseconds within that second, and the offset from UTC (in seconds)
/// that the date was written with.
#[derive(Debug, Clone, Copy, PartialEq, Eq)]
pub struct HttpDate {
    pub seconds: i64,
    pub nanos: u32,
    pub offset: i32,
}

/// `a` is a later moment than `b` (the offsets play no part).
pub open spec fn later(a: HttpDate, b: HttpDate) -> bool {
    a.seconds > b.seconds || (a.seconds == b.seconds && a.nanos > b.nanos)
}

impl HttpDate {
    /// Whether this moment is later than `other`.
    pub fn is_after(&self, other: &HttpDate) -> (r: bool)
        ensures
            r == later(*self, *other),
    {
        self.seconds > other.seconds || (self.seconds == other.seconds && self.nanos > other.nanos)
    }
}

/// A value stored in the context's metadata.
#[derive(Debug, PartialEq, Eq)]
pub enum MetaDataValue {
    Empty,
    String(String),
    UInteger(u64),
    Integer(i64),
    Boolean(bool),
}

/// The decimal digits of `n`.
pub open spec fn decimal(n: nat) -> Seq<char>
    decreases n,
{
    if n < 10 {
        seq![((48 + n) as int) as char]
    } else {
        decimal(n / 10).push(((48 + n % 10) as int) as char)
    }
}

/// The text of a metadata value: nothing for `Empty`, the text of a `String`, an integer in
/// decimal (with a leading `-` when it is negative), `true` or `false`.
pub open spec fn meta_text(v: MetaDataValue) -> Seq<char> {
    match v {
        MetaDataValue::Empty => Seq::empty(),
        MetaDataValue::String(s) => s@,
        MetaDataValue::UInteger(u) => decimal(u as nat),
        MetaDataValue::Integer(i) => if i < 0 {
            seq!['-'] + decimal((-i) as nat)
        } else {
            decimal(i as nat)
        },
        MetaDataValue::Boolean(b) => if b {
            "true"@
        } else {
            "false"@
        },
    }
}

fn decimal_chars(n: u64) -> (r: Vec<char>)
    ensures
        r@ == decimal(n as nat),
    decreases n,
{
    let d: u32 = (n % 10) as u32;
    let c = char_from_ascii(48 + d);
    if n < 10 {
        let r = vec![c];
        assert(r@ =~= decimal(n as nat));
        r
    } else {
        let mut r = decimal_chars(n / 10);
        r.push(c);
        r
    }
}

impl MetaDataValue {
    /// Whether the value is `Empty`.
    pub fn is_empty(&self) -> (r: bool)
        ensures
            r == (*self is Empty),
    {
        match self {
            MetaDataValue::Empty => true,
            _ => false,
        }
    }

    /// The text of a `String` value.
    pub fn as_string(&self) -> (r: Option<String>)
        ensures
            match *self {
                MetaDataValue::String(s) => r is Some && r->0@ == s@,
                _ => r is None,
            },
    {
        match self {
            MetaDataValue::String(s) => Some(s.clone()),
            _ => None,
        }
    }

    /// The number of a `UInteger` value.
    pub fn as_uint(&self) -> (r: Option<u64>)
        ensures
            match *self {
                MetaDataValue::UInteger(u) => r == Some(u),
                _ => r is None,
            },
    {
        match self {
            MetaDataValue::UInteger(u) => Some(*u),
            _ => None,
        }
    }

    /// The number of an `Integer` value.
    pub fn as_int(&self) -> (r: Option<i64>)
        ensures
            match *self {
                MetaDataValue::Integer(i) => r == Some(i),
                _ => r is None,
            },
    {
        match self {
            MetaDataValue::Integer(i) => Some(*i),
            _ => None,
        }
    }

    /// The flag of a `Boolean` value.
    pub fn as_bool(&self) -> (r: Option<bool>)
        ensures
            match *self {
                MetaDataValue::Boolean(b) => r == Some(b),
                _ => r is None,
            },
    {
        match self {
            MetaDataValue::Boolean(b) => Some(*b),
            _ => None,
        }
    }

    /// The text of the value (see `meta_text`).
    pub fn to_string(&self) -> (r: String)
        ensures
            r@ == meta_text(*self),
    {
        match self {
            MetaDataValue::Empty => {
                proof {
                    reveal_strlit("");
                }
                let r = string_from("");
                assert(r@ =~= Seq::<char>::empty());
                r
            },
            MetaDataValue::String(s) => s.clone(),
            MetaDataValue::UInteger(u) => {
                let cs = decimal_chars(*u);
                string_of(cs.as_slice())
            },
            MetaDataValue::Integer(i) => {
                let i = *i;
                if i < 0 {
                    let m: u64 = if i == i64::MIN {
                        9223372036854775808u64
                    } else {
                        (-i) as u64
                    };
                    let digits = decimal_chars(m);
                    let minus: Vec<char> = vec!['-'];
                    let cs = concat_chars(minus.as_slice(), digits.as_slice());
                    assert(minus@ =~= seq!['-']);
                    string_of(cs.as_slice())
                } else {
                    let cs = decimal_chars(i as u64);
                    string_of(cs.as_slice())
                }
            },
            MetaDataValue::Boolean(b) => if *b {
                string_from("true")
            } else {
                string_from("false")
            },
        }
    }
}

/// A metadata value holding the text.
impl From<String> for MetaDataValue {
    fn from(v: String) -> (r: Self) {
        MetaDataValue::String(v)
    }
}

impl vstd::std_specs::convert::FromSpecImpl<String> for MetaDataValue {
    open spec fn obeys_from_spec() -> bool {
        true
    }

    open spec fn from_spec(v: String) -> Self {
        MetaDataValue::String(v)
    }
}

/// A metadata value holding the unsigned number.
impl From<u64> for MetaDataValue {
    fn from(v: u64) -> (r: Self) {
        MetaDataValue::UInteger(v)
    }
}

impl vstd::std_specs::convert::FromSpecImpl<u64> for MetaDataValue {
    open spec fn obeys_from_spec() -> bool {
        true
    }

    open spec fn from_spec(v: u64) -> Self {
        MetaDataValue::UInteger(v)
    }
}

/// A metadata value holding the signed number.
impl From<i64> for MetaDataValue {
    fn from(v: i64) -> (r: Self) {
        MetaDataValue::Integer(v)
    }
}

impl vstd::std_specs::convert::FromSpecImpl<i64> for MetaDataValue {
    open spec fn obeys_from_spec() -> bool {
        true
    }

    open spec fn from_spec(v: i64) -> Self {
        MetaDataValue::Integer(v)
    }
}

/// A metadata value holding the flag.
impl From<bool> for MetaDataValue {
    fn from(v: bool) -> (r: Self) {
        MetaDataValue::Boolean(v)
    }
}

impl vstd::std_specs::convert::FromSpecImpl<bool> for MetaDataValue {
    open spec fn obeys_from_spec() -> bool {
        true
    }

    open spec fn from_spec(v: bool) -> Self {
        MetaDataValue::Boolean(v)
    }
}

impl Default for MetaDataValue {
    fn default() -> (r: Self)
        ensures
            r is Empty,
    {
        MetaDataValue::Empty
    }
}

/// The request as the state machine sees it.
#[derive(Debug)]
pub struct WebmachineRequest {
    /// The path of the request, such as `/path/1000/other`.
    pub request_path: String,
    /// The route that the request was dispatched to, such as `/path/{id}`.
    pub base_path: String,
    /// The part of the request path below the route, if any.
    pub sub_path: Option<String>,
    /// The values of the variables of the route, such as `id` = `1000`.
    pub path_vars: Vec<(String, String)>,
    /// The request method, such as `GET`.
    pub method: String,
    /// The request headers with their parsed values.
    pub headers: Vec<(String, Vec<HeaderValue>)>,
    /// The body, when the request has one.
    pub body: Option<Vec<u8>>,
    /// The query parameters, each name with its values in order.
    pub query: Vec<(String, Vec<String>)>,
}

impl Default for WebmachineRequest {
    fn default() -> (r: Self)
        ensures
            r.request_path@ == "/"@,
            r.base_path@ == "/"@,
            r.sub_path is None,
            r.path_vars@.len() == 0,
            r.method@ == "GET"@,
            r.headers@.len() == 0,
            r.body is None,
            r.query@.len() == 0,
    {
        WebmachineRequest {
            request_path: string_from("/"),
            base_path: string_from("/"),
            sub_path: None,
            path_vars: Vec::new(),
            method: string_from("GET"),
            headers: Vec::new(),
            body: None,
            query: Vec::new(),
        }
    }
}

impl WebmachineRequest {
    /// The request method is `m`, ignoring ASCII case.
    pub open spec fn method_is(&self, m: Seq<char>) -> bool {
        eq_ignore_case(self.method@, m)
    }

    /// The values of the request header `name` (the name compared ignoring ASCII case).
    pub open spec fn header_spec(&self, name: Seq<char>) -> Seq<HeaderValueModel> {
        header_values(self.headers.deep_view(), name)
    }

    /// The request has a header `name` (the name compared ignoring ASCII case).
    pub open spec fn has_header_spec(&self, name: Seq<char>) -> bool {
        lookup_ci(self.headers.deep_view(), name) is Some
    }

    /// Whether the request method is `m`, ignoring ASCII case.
    pub fn is_method(&self, m: &str) -> (r: bool)
        ensures
            r == self.method_is(m@),
    {
        str_eq_ignore_case(self.method.as_str(), m)
    }

    /// Whether this is a `PUT` request.
    pub fn is_put(&self) -> (r: bool)
        ensures
            r == self.method_is("PUT"@),
    {
        self.is_method("PUT")
    }

    /// Whether this is a `POST` request.
    pub fn is_post(&self) -> (r: bool)
        ensures
            r == self.method_is("POST"@),
    {
        self.is_method("POST")
    }

    /// Whether this is a `PUT` or a `POST` request.
    pub fn is_put_or_post(&self) -> (r: bool)
        ensures
            r == (self.method_is("PUT"@) || self.method_is("POST"@)),
    {
        self.is_put() || self.is_post()
    }

    /// Whether this is a `GET` request.
    pub fn is_get(&self) -> (r: bool)
        ensures
            r == self.method_is("GET"@),
    {
        self.is_method("GET")
    }

    /// Whether this is a `GET` or a `HEAD` request.
    pub fn is_get_or_head(&self) -> (r: bool)
        ensures
            r == (self.method_is("GET"@) || self.method_is("HEAD"@)),
    {
        self.is_get() || self.is_method("HEAD")
    }

    /// Whether this is an `OPTIONS` request.
    pub fn is_options(&self) -> (r: bool)
        ensures
            r == self.method_is("OPTIONS"@),
    {
        self.is_method("OPTIONS")
    }

    /// Whether this is a `DELETE` request.
    pub fn is_delete(&self) -> (r: bool)
        ensures
            r == self.method_is("DELETE"@),
    {
        self.is_method("DELETE")
    }

    /// The index of the first header named `name` (ignoring ASCII case), or the number of
    /// headers when there is none.
    fn header_index(&self, name: &str) -> (r: usize)
        ensures
            r <= self.headers@.len(),
            r < self.headers@.len() ==> lookup_ci(self.headers.deep_view(), name@) == Some(
                self.headers.deep_view()[r as int].1,
            ),
            r == self.headers@.len() ==> lookup_ci(self.headers.deep_view(), name@) is None,
    {
        let n = chars_of(name);
        let ghost h = self.headers.deep_view();
        let mut i: usize = 0;
        while i < self.headers.len()
            invariant
                i <= self.headers@.len(),
                h == self.headers.deep_view(),
                n@ == name@,
                forall|j: int| 0 <= j < i ==> !eq_ignore_case(#[trigger] h[j].0, n@),
            decreases self.headers.len() - i,
        {
            let k = chars_of(self.headers[i].0.as_str());
            assert(h[i as int].0 == k@);
            if chars_eq_ignore_case(k.as_slice(), n.as_slice()) {
                proof {
                    lemma_lookup_ci_skip(h, n@, i as int);
                    assert(h.skip(i as int)[0] == h[i as int]);
                }
                return i;
            }
            i = i + 1;
        }
        proof {
            lemma_lookup_ci_skip(h, n@, i as int);
        }
        i
    }

    /// Whether the request has a header `name` (the name compared ignoring ASCII case).
    pub fn has_header(&self, name: &str) -> (r: bool)
        ensures
            r == self.has_header_spec(name@),
    {
        self.header_index(name) < self.headers.len()
    }

    /// The values of the request header `name`, none when it is absent (the name compared
    /// ignoring ASCII case).
    pub fn find_header(&self, name: &str) -> (r: Vec<HeaderValue>)
        ensures
            r.deep_view() == self.header_spec(name@),
    {
        let i = self.header_index(name);
        if i < self.headers.len() {
            copy_values(&self.headers[i].1)
        } else {
            Vec::new()
        }
    }

    /// The request's content type: the first value of its `Content-Type` header, or
    /// `application/json` when it has none.
    pub fn content_type(&self) -> (r: String)
        ensures
            r@ == (if self.header_spec("Content-Type"@).len() > 0 {
                self.header_spec("Content-Type"@)[0].value
            } else {
                "application/json"@
            }),
    {
        let values = self.find_header("Content-Type");
        if values.len() > 0 {
            assert(values.deep_view()[0] == values@[0]@);
            values[0].value.clone()
        } else {
            string_from("application/json")
        }
    }

    /// Whether the request has an `Accept` header.
    pub fn has_accept_header(&self) -> (r: bool)
        ensures
            r == self.has_header_spec("Accept"@),
    {
        self.has_header("Accept")
    }

    /// The values of the `Accept` header.
    pub fn accept(&self) -> (r: Vec<HeaderValue>)
        ensures
            r.deep_view() == self.header_spec("Accept"@),
    {
        self.find_header("Accept")
    }

    /// Whether the request has an `Accept-Language` header.
    pub fn has_accept_language_header(&self) -> (r: bool)
        ensures
            r == self.has_header_spec("Accept-Language"@),
    {
        self.has_header("Accept-Language")
    }

    /// The values of the `Accept-Language` header.
    pub fn accept_language(&self) -> (r: Vec<HeaderValue>)
        ensures
            r.deep_view() == self.header_spec("Accept-Language"@),
    {
        self.find_header("Accept-Language")
    }

    /// Whether the request has an `Accept-Charset` header.
    pub fn has_accept_charset_header(&self) -> (r: bool)
        ensures
            r == self.has_header_spec("Accept-Charset"@),
    {
        self.has_header("Accept-Charset")
    }

    /// The values of the `Accept-Charset` header.
    pub fn accept_charset(&self) -> (r: Vec<HeaderValue>)
        ensures
            r.deep_view() == self.header_spec("Accept-Charset"@),
    {
        self.find_header("Accept-Charset")
    }

    /// Whether the request has an `Accept-Encoding` header.
    pub fn has_accept_encoding_header(&self) -> (r: bool)
        ensures
            r == self.has_header_spec("Accept-Encoding"@),
    {
        self.has_header("Accept-Encoding")
    }

    /// The values of the `Accept-Encoding` header.
    pub fn accept_encoding(&self) -> (r: Vec<HeaderValue>)
        ensures
            r.deep_view() == self.header_spec("Accept-Encoding"@),
    {
        self.find_header("Accept-Encoding")
    }

    /// Whether some value of the request header `name` has the text `value`.
    pub fn has_header_value(&self, name: &str, value: &str) -> (r: bool)
        ensures
            r == has_value(self.headers.deep_view(), name@, value@),
    {
        let values = self.find_header(name);
        let ghost hv = header_values(self.headers.deep_view(), name@);
        let mut i: usize = 0;
        while i < values.len()
            invariant
                i <= values@.len(),
                values.deep_view() == hv,
                hv == header_values(self.headers.deep_view(), name@),
                forall|j: int| 0 <= j < i ==> (#[trigger] hv[j]).value != value@,
            decreases values.len() - i,
        {
            assert(values.deep_view()[i as int] == values@[i as int]@);
            if crate::text::str_eq(values[i].value.as_str(), value) {
                assert(header_values(self.headers.deep_view(), name@)[i as int].value == value@);
                return true;
            }
            i = i + 1;
        }
        false
    }
}

/// The response that the state machine builds.
#[derive(Debug)]
pub struct WebmachineResponse {
    /// The status code.
    pub status: u16,
    /// The response headers, each name once, with their values.
    pub headers: Vec<(String, Vec<HeaderValue>)>,
    /// The body, when the response has one.
    pub body: Option<Vec<u8>>,
}

impl Default for WebmachineResponse {
    fn default() -> (r: Self)
        ensures
            r.status == 200,
            r.headers@.len() == 0,
            r.body is None,
    {
        WebmachineResponse { status: 200, headers: Vec::new(), body: None }
    }
}

impl WebmachineResponse {
    /// The response has a header `name` (the name compared ignoring ASCII case).
    pub open spec fn has_header_spec(&self, name: Seq<char>) -> bool {
        lookup_ci(self.headers.deep_view(), name) is Some
    }

    /// The response has a body that is not empty.
    pub open spec fn has_body_spec(&self) -> bool {
        self.body is Some && self.body->0@.len() > 0
    }

    /// Sets the header `name` to `values`, in place of any values it had.
    pub fn add_header(&mut self, name: &str, values: Vec<HeaderValue>)
        ensures
            final(self).headers.deep_view() == put(old(self).headers.deep_view(), name@, values.deep_view()),
            keys_unique(old(self).headers.deep_view()) ==> keys_unique(final(self).headers.deep_view()),
            final(self).status == old(self).status,
            final(self).body == old(self).body,
    {
        proof {
            if keys_unique(self.headers.deep_view()) {
                lemma_put_keeps_keys_unique(self.headers.deep_view(), name@, values.deep_view());
            }
        }
        let ghost h = self.headers.deep_view();
        let mut i: usize = 0;
        while i < self.headers.len()
            invariant_except_break
                i <= self.headers@.len(),
                h == self.headers.deep_view(),
                forall|j: int| 0 <= j < i ==> #[trigger] h[j].0 != name@,
            ensures
                i <= self.headers@.len(),
                h == self.headers.deep_view(),
                forall|j: int| 0 <= j < i ==> #[trigger] h[j].0 != name@,
                i < self.headers@.len() ==> h[i as int].0 == name@,
            decreases self.headers.len() - i,
        {
            assert(h[i as int].0 == self.headers@[i as int].0@);
            if crate::text::str_eq(self.headers[i].0.as_str(), name) {
                break;
            }
            i = i + 1;
        }
        proof {
            lemma_put_at(h, name@, values.deep_view(), i as int);
        }
        let ghost vals = values.deep_view();
        let key = string_from(name);
        if i < self.headers.len() {
            self.headers.set(i, (key, values));
            assert(self.headers.deep_view() =~= h.update(i as int, (name@, vals)));
        } else {
            self.headers.push((key, values));
            assert(self.headers.deep_view() =~= h.push((name@, vals)));
        }
    }

    /// Adds the CORS headers that allow any origin to use the given methods with a
    /// `Content-Type` header.
    pub fn add_cors_headers(&mut self, allowed_methods: &Vec<String>)
        ensures
            final(self).headers.deep_view() == put(
                put(
                    put(old(self).headers.deep_view(), "Access-Control-Allow-Origin"@, seq![plain_value("*"@)]),
                    "Access-Control-Allow-Methods"@,
                    Seq::new(allowed_methods@.len(), |i: int| plain_value(allowed_methods@[i]@)),
                ),
                "Access-Control-Allow-Headers"@,
                seq![plain_value("Content-Type"@)],
            ),
            final(self).status == old(self).status,
            final(self).body == old(self).body,
    {
        let mut origin: Vec<HeaderValue> = Vec::new();
        let o = HeaderValue::basic("*");
        let ghost ov = o@;
        origin.push(o);
        assert(origin.deep_view() =~= seq![ov]);
        self.add_header("Access-Control-Allow-Origin", origin);
        let mut methods: Vec<HeaderValue> = Vec::new();
        let mut i: usize = 0;
        while i < allowed_methods.len()
            invariant
                i <= allowed_methods@.len(),
                methods.deep_view() == Seq::new(i as nat, |j: int| plain_value(allowed_methods@[j]@)),
            decreases allowed_methods.len() - i,
        {
            let ghost before = methods.deep_view();
            let m = HeaderValue::basic(allowed_methods[i].as_str());
            let ghost mv = m@;
            methods.push(m);
            assert(methods.deep_view() =~= before.push(mv));
            assert(methods.deep_view() =~= Seq::new((i + 1) as nat, |j: int| plain_value(allowed_methods@[j]@)));
            i = i + 1;
        }
        self.add_header("Access-Control-Allow-Methods", methods);
        let mut allowed_headers: Vec<HeaderValue> = Vec::new();
        let h = HeaderValue::basic("Content-Type");
        let ghost hv = h@;
        allowed_headers.push(h);
        assert(allowed_headers.deep_view() =~= seq![hv]);
        self.add_header("Access-Control-Allow-Headers", allowed_headers);
    }

    /// Whether the response has a header `name` (the name compared ignoring ASCII case).
    pub fn has_header(&self, name: &str) -> (r: bool)
        ensures
            r == self.has_header_spec(name@),
    {
        let n = chars_of(name);
        let ghost h = self.headers.deep_view();
        let mut i: usize = 0;
        while i < self.headers.len()
            invariant
                i <= self.headers@.len(),
                h == self.headers.deep_view(),
                n@ == name@,
                forall|j: int| 0 <= j < i ==> !eq_ignore_case(#[trigger] h[j].0, n@),
            decreases self.headers.len() - i,
        {
            let k = chars_of(self.headers[i].0.as_str());
            assert(h[i as int].0 == k@);
            if chars_eq_ignore_case(k.as_slice(), n.as_slice()) {
                proof {
                    lemma_lookup_ci_skip(h, n@, i as int);
                    assert(h.skip(i as int)[0] == h[i as int]);
                }
                return true;
            }
            i = i + 1;
        }
        proof {
            lemma_lookup_ci_skip(h, n@, i as int);
        }
        false
    }

    /// Whether the response has a body that is not empty.
    pub fn has_body(&self) -> (r: bool)
        ensures
            r == self.has_body_spec(),
    {
        match &self.body {
            Some(b) => b.len() > 0,
            None => false,
        }
    }

    /// The value of the header `name` (exact name), if it is set.
    pub fn header(&self, name: &str) -> (r: Option<Vec<HeaderValue>>)
        ensures
            match r {
                Some(v) => lookup(self.headers.deep_view(), name@) == Some(v.deep_view()),
                None => lookup(self.headers.deep_view(), name@) is None,
            },
    {
        let ghost h = self.headers.deep_view();
        let mut i: usize = 0;
        while i < self.headers.len()
            invariant
                i <= self.headers@.len(),
                h == self.headers.deep_view(),
                forall|j: int| 0 <= j < i ==> #[trigger] h[j].0 != name@,
            decreases self.headers.len() - i,
        {
            assert(h[i as int].0 == self.headers@[i as int].0@);
            if crate::text::str_eq(self.headers[i].0.as_str(), name) {
                proof {
                    lemma_lookup_skip(h, name@, i as int);
                    assert(h.skip(i as int)[0] == h[i as int]);
                }
                return Some(copy_values(&self.headers[i].1));
            }
            i = i + 1;
        }
        proof {
            lemma_lookup_skip(h, name@, i as int);
        }
        None
    }
}

/// Everything the state machine knows about one request while it runs.
#[derive(Debug)]
pub struct WebmachineContext {
    pub request: WebmachineRequest,
    pub response: WebmachineResponse,
    /// The media type chosen for the response.
    pub selected_media_type: Option<String>,
    /// The language chosen for the response.
    pub selected_language: Option<String>,
    /// The charset chosen for the response.
    pub selected_charset: Option<String>,
    /// The encoding chosen for the response.
    pub selected_encoding: Option<String>,
    /// The date of a valid `If-Unmodified-Since` header.
    pub if_unmodified_since: Option<HttpDate>,
    /// The date of a valid `If-Modified-Since` header.
    pub if_modified_since: Option<HttpDate>,
    /// Set by a resource when the response to a `POST` is to be a redirect.
    pub redirect: bool,
    /// Set when the request creates a new resource.
    pub new_resource: bool,
    /// Anything a resource wants to keep for the later steps of this request.
    pub metadata: Vec<(String, MetaDataValue)>,
}

impl Default for WebmachineContext {
    fn default() -> (r: Self)
        ensures
            r.request.request_path@ == "/"@,
            r.request.base_path@ == "/"@,
            r.request.sub_path is None,
            r.request.path_vars@.len() == 0,
            r.request.method@ == "GET"@,
            r.request.headers@.len() == 0,
            r.request.body is None,
            r.request.query@.len() == 0,
            r.response.status == 200,
            r.response.headers@.len() == 0,
            r.response.body is None,
            r.selected_media_type is None,
            r.selected_language is None,
            r.selected_charset is None,
            r.selected_encoding is None,
            r.if_unmodified_since is None,
            r.if_modified_since is None,
            !r.redirect,
            !r.new_resource,
            r.metadata@.len() == 0,
    {
        WebmachineContext {
            request: WebmachineRequest::default(),
            response: WebmachineResponse::default(),
            selected_media_type: None,
            selected_language: None,
            selected_charset: None,
            selected_encoding: None,
            if_unmodified_since: None,
            if_modified_since: None,
            redirect: false,
            new_resource: false,
            metadata: Vec::new(),
        }
    }
}

/// Stores `value` under the key `name`, replacing an earlier value of that key.
pub(crate) fn put_pair(vars: &mut Vec<(String, String)>, name: &str, value: &str)
    ensures
        final(vars).deep_view() == put(old(vars).deep_view(), name@, value@),
{
    let ghost h = vars.deep_view();
    let mut i: usize = 0;
    while i < vars.len()
        invariant_except_break
            i <= vars@.len(),
            h == vars.deep_view(),
            forall|j: int| 0 <= j < i ==> #[trigger] h[j].0 != name@,
        ensures
            i <= vars@.len(),
            h == vars.deep_view(),
            forall|j: int| 0 <= j < i ==> #[trigger] h[j].0 != name@,
            i < vars@.len() ==> h[i as int].0 == name@,
        decreases vars.len() - i,
    {
        assert(h[i as int].0 == vars@[i as int].0@);
        if crate::text::str_eq(vars[i].0.as_str(), name) {
            break;
        }
        i = i + 1;
    }
    proof {
        lemma_put_at(h, name@, value@, i as int);
    }
    let k = crate::text::string_from(name);
    let x = crate::text::string_from(value);
    if i < vars.len() {
        vars.set(i, (k, x));
        assert(vars.deep_view() =~= h.update(i as int, (name@, value@)));
    } else {
        vars.push((k, x));
        assert(vars.deep_view() =~= h.push((name@, value@)));
    }
}

} // verus!
