//! `POST /mcp`: which session a request names, and how the bridge answers it.
//!
//! The session is named by the query (`?session_id=...`, or one of its aliases
//! `sessionId`, `sid`, `session`) or, failing that, by a header
//! (`x-session-id`, `session_id`, `sessionId`, `session-id`, looked up in that
//! order). The text must be a UUID. A request that names no session is
//! refused with 400; one whose session is gone gets 410 and an
//! `x-mcp-reconnect: true` header, so the client knows to open a new SSE
//! stream.
use vstd::prelude::*;
use crate::text::{
    append_str, chars_of, first_index, is_first, lemma_first_unique, lemma_split_at_first,
    lemma_split_without_sep,
    push_char, split_char, string_of,
};
use crate::url::opt_view;
use crate::ids::{lemma_uuid_text_parses, parse_session_id, parsed_uuid, uuid_text, is_hex};

verus! {

/// The session named by the query of a request.
pub struct SessionQuery {
    pub session_id: Option<String>,
}

/// The headers of a request: each name (lower case, as HTTP header maps hold
/// them) with its value's bytes, in the order the header map yields them.
pub struct HeaderList {
    pub entries: Vec<(String, Vec<u8>)>,
}

impl View for HeaderList {
    type V = Seq<(Seq<char>, Seq<u8>)>;

    open spec fn view(&self) -> Seq<(Seq<char>, Seq<u8>)> {
        self.entries@.map_values(|e: (String, Vec<u8>)| (e.0@, e.1@))
    }
}

/// How the bridge answers a `POST /mcp`.
pub struct PostReply {
    /// The HTTP status.
    pub status: u16,
    /// The body text.
    pub body: String,
    /// Whether the answer carries `x-mcp-reconnect: true`.
    pub reconnect: bool,
}

pub open spec fn pair_views(p: Seq<(String, String)>) -> Seq<(Seq<char>, Seq<char>)> {
    p.map_values(|x: (String, String)| (x.0@, x.1@))
}

/// A segment of a form split at its first `=` into name and value.
pub open spec fn pair_of(seg: Seq<char>) -> (Seq<char>, Seq<char>) {
    match first_index(seg, '=') {
        Some(i) => (seg.take(i), seg.skip(i + 1)),
        None => (seg, Seq::<char>::empty()),
    }
}

/// The name/value pairs of the non-empty segments, in order.
pub open spec fn pairs_of(segs: Seq<Seq<char>>) -> Seq<(Seq<char>, Seq<char>)>
    decreases segs.len(),
{
    if segs.len() == 0 {
        Seq::<(Seq<char>, Seq<char>)>::empty()
    } else {
        let r = pairs_of(segs.drop_last());
        if segs.last().len() == 0 {
            r
        } else {
            r.push(pair_of(segs.last()))
        }
    }
}

/// The name/value pairs of a form before decoding: the `&`-separated
/// non-empty segments, each split at its first `=`.
pub open spec fn raw_pairs(q: Seq<char>) -> Seq<(Seq<char>, Seq<char>)> {
    pairs_of(split_char(q, '&'))
}

/// A text that holds neither percent-escapes nor `+`, which decode to
/// something else than themselves.
pub open spec fn is_plain_form(q: Seq<char>) -> bool {
    !q.contains('%') && !q.contains('+')
}

/// What form decoding makes of a name or value with `%` or `+`: `+` read as
/// a space, percent-escapes decoded, the bytes read as UTF-8 with invalid
/// sequences replaced.
pub uninterp spec fn form_decode(s: Seq<char>) -> Seq<char>;

/// A name or value of a form, decoded.
pub open spec fn form_part(s: Seq<char>) -> Seq<char> {
    if is_plain_form(s) {
        s
    } else {
        form_decode(s)
    }
}

/// The name/value pairs of an `application/x-www-form-urlencoded` text.
pub open spec fn decoded_pairs(q: Seq<char>) -> Seq<(Seq<char>, Seq<char>)> {
    raw_pairs(q).map_values(|p: (Seq<char>, Seq<char>)| (form_part(p.0), form_part(p.1)))
}

/// Calls `serde_urlencoded::from_str::<Vec<(String, String)>>(q)`, which
/// decodes with `form_urlencoded::parse`: the text is cut at each `&`, empty
/// segments are skipped, each segment is cut at its first `=` (the value is
/// empty when there is none), and each name and value is percent-decoded
/// with `+` read as a space. The contract states this structure for every
/// text; of the decoding of one name or value it states that a text without
/// `%` and `+` is left as it is, and names the rest `form_decode`. Decoding
/// into pairs of strings does not fail; the empty list stands for an error.
#[verifier::external_body]
fn decode_form(q: &str) -> (r: Vec<(String, String)>)
    ensures
        r@.len() == raw_pairs(q@).len(),
        forall|k: int|
            0 <= k < r@.len() ==> #[trigger] r@[k].0@ == (if is_plain_form(raw_pairs(q@)[k].0) {
                raw_pairs(q@)[k].0
            } else {
                form_decode(raw_pairs(q@)[k].0)
            }) && r@[k].1@ == (if is_plain_form(raw_pairs(q@)[k].1) {
                raw_pairs(q@)[k].1
            } else {
                form_decode(raw_pairs(q@)[k].1)
            }),
{
    match serde_urlencoded::from_str::<Vec<(String, String)>>(q) {
        Ok(pairs) => pairs,
        Err(_) => Vec::new(),
    }
}

pub open spec fn key_session_id() -> Seq<char> {
    seq!['s', 'e', 's', 's', 'i', 'o', 'n', '_', 'i', 'd']
}

pub open spec fn key_session_id_camel() -> Seq<char> {
    seq!['s', 'e', 's', 's', 'i', 'o', 'n', 'I', 'd']
}

pub open spec fn key_sid() -> Seq<char> {
    seq!['s', 'i', 'd']
}

pub open spec fn key_session() -> Seq<char> {
    seq!['s', 'e', 's', 's', 'i', 'o', 'n']
}

/// `session_id` and its aliases `sessionId`, `sid`, `session`.
pub open spec fn is_session_key(k: Seq<char>) -> bool {
    k == key_session_id() || k == key_session_id_camel() || k == key_sid() || k == key_session()
}

/// The values given under `session_id` or one of its aliases, in order.
pub open spec fn session_values(p: Seq<(Seq<char>, Seq<char>)>) -> Seq<Seq<char>>
    decreases p.len(),
{
    if p.len() == 0 {
        Seq::<Seq<char>>::empty()
    } else {
        let r = session_values(p.drop_last());
        if is_session_key(p.last().0) {
            r.push(p.last().1)
        } else {
            r
        }
    }
}

/// The session the pairs name: the one value given under `session_id` or an
/// alias. Other names are ignored. Giving the field twice (under one name or
/// two) makes the whole query invalid, and then no session is named.
pub open spec fn query_session_id(p: Seq<(Seq<char>, Seq<char>)>) -> Option<Seq<char>> {
    let v = session_values(p);
    if v.len() == 1 {
        Some(v[0])
    } else {
        None
    }
}

/// The session the raw query of a request names.
pub open spec fn raw_query_session_id(raw: Option<Seq<char>>) -> Option<Seq<char>> {
    match raw {
        Some(q) => query_session_id(decoded_pairs(q)),
        None => None,
    }
}

/// The value of the first header named `name`.
pub open spec fn header_lookup(h: Seq<(Seq<char>, Seq<u8>)>, name: Seq<char>) -> Option<Seq<u8>>
    decreases h.len(),
{
    if h.len() == 0 {
        None
    } else if h[0].0 == name {
        Some(h[0].1)
    } else {
        header_lookup(h.drop_first(), name)
    }
}

/// Visible ASCII and tab: what a header value must hold to be read as text.
pub open spec fn is_visible_ascii(b: u8) -> bool {
    (32 <= b < 127) || b == 9
}

/// A header value as text, when it is visible ASCII throughout.
pub open spec fn header_text(b: Seq<u8>) -> Option<Seq<char>> {
    if forall|i: int| 0 <= i < b.len() ==> is_visible_ascii(#[trigger] b[i]) {
        Some(b.map_values(|x: u8| x as char))
    } else {
        None
    }
}

pub open spec fn name_x_session_id() -> Seq<char> {
    seq!['x', '-', 's', 'e', 's', 's', 'i', 'o', 'n', '-', 'i', 'd']
}

pub open spec fn name_session_id() -> Seq<char> {
    seq!['s', 'e', 's', 's', 'i', 'o', 'n', '_', 'i', 'd']
}

pub open spec fn name_sessionid() -> Seq<char> {
    seq!['s', 'e', 's', 's', 'i', 'o', 'n', 'i', 'd']
}

pub open spec fn name_session_dash_id() -> Seq<char> {
    seq!['s', 'e', 's', 's', 'i', 'o', 'n', '-', 'i', 'd']
}

/// The value of the first of `x-session-id`, `session_id`, `sessionid`,
/// `session-id` that the request carries.
pub open spec fn session_header_value(h: Seq<(Seq<char>, Seq<u8>)>) -> Option<Seq<u8>> {
    match header_lookup(h, name_x_session_id()) {
        Some(v) => Some(v),
        None => match header_lookup(h, name_session_id()) {
            Some(v) => Some(v),
            None => match header_lookup(h, name_sessionid()) {
                Some(v) => Some(v),
                None => header_lookup(h, name_session_dash_id()),
            },
        },
    }
}

/// The session a request's headers name: the text of the first session
/// header present; nothing when that one is not visible ASCII, whatever the
/// others hold.
pub open spec fn header_session_id(h: Seq<(Seq<char>, Seq<u8>)>) -> Option<Seq<char>> {
    match session_header_value(h) {
        Some(b) => header_text(b),
        None => None,
    }
}

/// The session a `POST /mcp` targets: the text from the query, or else from
/// the headers, read as a UUID.
pub open spec fn requested_session(raw: Option<Seq<char>>, h: Seq<(Seq<char>, Seq<u8>)>) -> Option<
    u128,
> {
    let text = match raw_query_session_id(raw) {
        Some(s) => Some(s),
        None => header_session_id(h),
    };
    match text {
        Some(t) => parsed_uuid(t),
        None => None,
    }
}

/// The query under which the endpoint event hands a client its session.
pub open spec fn endpoint_query(sid: u128) -> Seq<char> {
    key_session_id() + seq!['='] + uuid_text(sid)
}

/// What `{:?}` writes for other strings.
pub uninterp spec fn str_debug(s: Seq<char>) -> Seq<char>;

/// Printable ASCII other than `"` and `\`: characters that `{:?}` leaves as
/// they are.
pub open spec fn is_plain_printable(c: char) -> bool {
    32 <= (c as u32) <= 126 && c != '"' && c != '\\'
}

/// `s` as `{:?}` writes it.
pub open spec fn debug_text(s: Seq<char>) -> Seq<char> {
    if forall|i: int| 0 <= i < s.len() ==> is_plain_printable(#[trigger] s[i]) {
        seq!['"'] + s + seq!['"']
    } else {
        str_debug(s)
    }
}

/// An optional string as `{:?}` writes it.
pub open spec fn option_debug(raw: Option<Seq<char>>) -> Seq<char> {
    match raw {
        Some(q) => seq!['S', 'o', 'm', 'e', '('] + debug_text(q) + seq![')'],
        None => seq!['N', 'o', 'n', 'e'],
    }
}

pub open spec fn bad_request_prefix() -> Seq<char> {
    "missing or invalid session_id. Received raw_query="@
}

pub open spec fn gone_message() -> Seq<char> {
    "session expired or not found \u{2014} please reconnect SSE to get a new session_id"@
}

/// Calls `format!("{:?}", s)`: `s` between double quotes, with `"`, `\` and
/// characters that are not printable escaped. The contract states it for
/// texts of printable ASCII other than `"` and `\`, which are not escaped,
/// and names it `str_debug` otherwise.
#[verifier::external_body]
fn debug_str(s: &str) -> (r: String)
    ensures
        (forall|i: int| 0 <= i < s@.len() ==> is_plain_printable(#[trigger] s@[i])) ==> r@
            == seq!['"'] + s@ + seq!['"'],
        !(forall|i: int| 0 <= i < s@.len() ==> is_plain_printable(#[trigger] s@[i])) ==> r@
            == str_debug(s@),
{
    format!("{:?}", s)
}

fn key_is_session(k: &String) -> (b: bool)
    ensures
        b == is_session_key(k@),
{
    let a = string_of(&chars_of("session_id"));
    let b = string_of(&chars_of("sessionId"));
    let c = string_of(&chars_of("sid"));
    let d = string_of(&chars_of("session"));
    proof {
        reveal_strlit("session_id");
        reveal_strlit("sessionId");
        reveal_strlit("sid");
        reveal_strlit("session");
        assert(a@ =~= key_session_id());
        assert(b@ =~= key_session_id_camel());
        assert(c@ =~= key_sid());
        assert(d@ =~= key_session());
    }
    *k == a || *k == b || *k == c || *k == d
}

impl SessionQuery {
    /// Reads the session from a query string as the bridge's form decoding
    /// does: the one value under `session_id`, `sessionId`, `sid` or
    /// `session`; nothing when none is given or the field is given twice.
    pub fn parse(raw: &str) -> (r: SessionQuery)
        ensures
            opt_view(r.session_id) == query_session_id(decoded_pairs(raw@)),
    {
        let pairs = decode_form(raw);
        let ghost pv = decoded_pairs(raw@);
        assert(pair_views(pairs@) =~= pv) by {
            assert forall|k: int| 0 <= k < pairs@.len() implies #[trigger] pair_views(pairs@)[k]
                == pv[k] by {
                assert(pairs@[k].0@ == form_part(raw_pairs(raw@)[k].0));
            }
        }
        let mut found: Option<String> = None;
        let mut count: usize = 0;
        let mut i: usize = 0;
        while i < pairs.len()
            invariant
                i <= pairs.len(),
                pair_views(pairs@) == pv,
                count == session_values(pv.take(i as int)).len() || (count == 2
                    && session_values(pv.take(i as int)).len() >= 2),
                count <= 2,
                count == 1 ==> opt_view(found) == Some(session_values(pv.take(i as int))[0]),
            decreases pairs.len() - i,
        {
            let ghost before = session_values(pv.take(i as int));
            assert(pv.take(i + 1).drop_last() =~= pv.take(i as int));
            assert(pv.take(i + 1).last() == (pairs@[i as int].0@, pairs@[i as int].1@));
            if key_is_session(&pairs[i].0) {
                if count == 0 {
                    found = Some(pairs[i].1.clone());
                    count = 1;
                    assert(session_values(pv.take(i + 1)) == before.push(pairs@[i as int].1@));
                } else {
                    count = 2;
                }
            }
            i += 1;
        }
        assert(pv.take(pairs.len() as int) =~= pv);
        if count == 1 {
            SessionQuery { session_id: found }
        } else {
            SessionQuery { session_id: None }
        }
    }

    /// The session the raw query names; none without a query.
    pub fn from_raw_query(raw: &Option<String>) -> (r: SessionQuery)
        ensures
            opt_view(r.session_id) == raw_query_session_id(opt_view(*raw)),
    {
        match raw {
            Some(q) => SessionQuery::parse(q.as_str()),
            None => SessionQuery { session_id: None },
        }
    }
}

/// The header value as text, when it is visible ASCII throughout (what
/// `HeaderValue::to_str` accepts).
pub fn header_value_text(b: &Vec<u8>) -> (r: Option<String>)
    ensures
        opt_view(r) == header_text(b@),
{
    let mut s = String::new();
    let mut i: usize = 0;
    while i < b.len()
        invariant
            i <= b.len(),
            forall|j: int| 0 <= j < i ==> is_visible_ascii(#[trigger] b@[j]),
            s@ == b@.take(i as int).map_values(|x: u8| x as char),
        decreases b.len() - i,
    {
        let c = b[i];
        if !((32 <= c && c < 127) || c == 9) {
            assert(!is_visible_ascii(b@[i as int]));
            return None;
        }
        push_char(&mut s, c as char);
        assert(b@.take(i + 1).map_values(|x: u8| x as char) =~= b@.take(i as int).map_values(
            |x: u8| x as char,
        ).push(c as char));
        i += 1;
    }
    assert(b@.take(b.len() as int) =~= b@);
    Some(s)
}

impl HeaderList {
    /// The value of the first header named `name` (given in lower case).
    pub fn get(&self, name: &str) -> (r: Option<Vec<u8>>)
        ensures
            match r {
                Some(v) => header_lookup(self@, name@) == Some(v@),
                None => header_lookup(self@, name@) is None,
            },
    {
        let key = string_of(&chars_of(name));
        assert(self@.skip(0) =~= self@);
        let mut i: usize = 0;
        while i < self.entries.len()
            invariant
                i <= self.entries.len(),
                key@ == name@,
                header_lookup(self@, name@) == header_lookup(self@.skip(i as int), name@),
            decreases self.entries.len() - i,
        {
            assert(self@.skip(i as int)[0] == (self.entries@[i as int].0@, self.entries@[i as int].1@));
            if self.entries[i].0 == key {
                let v = self.entries[i].1.clone();
                assert(v@ =~= self.entries@[i as int].1@);
                return Some(v);
            }
            assert(self@.skip(i as int).drop_first() =~= self@.skip(i + 1));
            i += 1;
        }
        None
    }

    /// The session the headers name: the text of the first of
    /// `x-session-id`, `session_id`, `sessionid`, `session-id` present;
    /// nothing when that value is not visible ASCII.
    pub fn session_id(&self) -> (r: Option<String>)
        ensures
            opt_view(r) == header_session_id(self@),
    {
        proof {
            reveal_strlit("x-session-id");
            reveal_strlit("session_id");
            reveal_strlit("sessionid");
            reveal_strlit("session-id");
            assert("x-session-id"@ =~= name_x_session_id());
            assert("session_id"@ =~= name_session_id());
            assert("sessionid"@ =~= name_sessionid());
            assert("session-id"@ =~= name_session_dash_id());
        }
        let found = match self.get("x-session-id") {
            Some(v) => Some(v),
            None => match self.get("session_id") {
                Some(v) => Some(v),
                None => match self.get("sessionid") {
                    Some(v) => Some(v),
                    None => self.get("session-id"),
                },
            },
        };
        match found {
            Some(v) => header_value_text(&v),
            None => None,
        }
    }
}

/// The session a `POST /mcp` targets: the session text of the query when it
/// names one, else that of the headers, read as a UUID. `None` when neither
/// names one, or the text is not a UUID.
pub fn requested_session_id(raw_query: &Option<String>, headers: &HeaderList) -> (r: Option<u128>)
    ensures
        r == requested_session(opt_view(*raw_query), headers@),
{
    let q = SessionQuery::from_raw_query(raw_query);
    let text = match q.session_id {
        Some(s) => Some(s),
        None => headers.session_id(),
    };
    match text {
        Some(t) => parse_session_id(t.as_str()),
        None => None,
    }
}

/// How the bridge answers a `POST /mcp` that targets `target` (see
/// `requested_session_id`): 400 with a body that quotes the raw query when no
/// session is named; 202 when the message was handed to the session; 410
/// with `x-mcp-reconnect: true` when the session is gone or would not take
/// it.
pub fn post_reply(raw_query: &Option<String>, target: Option<u128>, delivered: bool) -> (r: PostReply)
    ensures
        target is None ==> r.status == 400 && !r.reconnect && r.body@ == bad_request_prefix()
            + option_debug(opt_view(*raw_query)),
        target is Some && delivered ==> r.status == 202 && !r.reconnect && r.body@.len() == 0,
        target is Some && !delivered ==> r.status == 410 && r.reconnect && r.body@
            == gone_message(),
{
    match target {
        None => {
            let mut body = string_of(&chars_of("missing or invalid session_id. Received raw_query="));
            match raw_query {
                Some(q) => {
                    append_str(&mut body, "Some(");
                    let d = debug_str(q.as_str());
                    append_str(&mut body, d.as_str());
                    push_char(&mut body, ')');
                    proof {
                        reveal_strlit("Some(");
                        assert("Some("@ =~= seq!['S', 'o', 'm', 'e', '(']);
                        assert(body@ =~= bad_request_prefix() + option_debug(opt_view(*raw_query)));
                    }
                },
                None => {
                    append_str(&mut body, "None");
                    proof {
                        reveal_strlit("None");
                        assert("None"@ =~= seq!['N', 'o', 'n', 'e']);
                        assert(body@ =~= bad_request_prefix() + option_debug(opt_view(*raw_query)));
                    }
                },
            }
            PostReply { status: 400, body, reconnect: false }
        },
        Some(_) => {
            if delivered {
                PostReply { status: 202, body: String::new(), reconnect: false }
            } else {
                let body = string_of(
                    &chars_of(
                        "session expired or not found \u{2014} please reconnect SSE to get a new session_id",
                    ),
                );
                PostReply { status: 410, body, reconnect: true }
            }
        },
    }
}

/// The query of the endpoint event names the session it was made for, for
/// any headers the request carries: a client that posts to the endpoint URL
/// reaches its own session.
pub proof fn lemma_endpoint_query_names_session(sid: u128, headers: Seq<(Seq<char>, Seq<u8>)>)
    ensures
        raw_query_session_id(Some(endpoint_query(sid))) == Some(uuid_text(sid)),
        requested_session(Some(endpoint_query(sid)), headers) == Some(sid),
{
    let t = uuid_text(sid);
    lemma_uuid_text_parses(sid);
    assert forall|i: int| 0 <= i < t.len() implies t[i] != '%' && t[i] != '+' && t[i] != '&' by {
        assert(is_hex(t[i]) || t[i] == '-');
    }
    lemma_session_aliases_agree(key_session_id(), t, headers);
    lemma_single_pair_query(key_session_id(), t);
    lemma_single_key_session(key_session_id(), t);
    assert(form_part(t) == t);
}

} // verus!

verus! {

/// Neither `%`, `+` nor `&`: a text that form decoding leaves whole.
pub open spec fn is_plain_value(v: Seq<char>) -> bool {
    forall|j: int| 0 <= j < v.len() ==> v[j] != '%' && v[j] != '+' && v[j] != '&'
}

/// No `&`: a text that stays one piece of a form.
pub open spec fn has_no_amp(v: Seq<char>) -> bool {
    forall|j: int| 0 <= j < v.len() ==> v[j] != '&'
}

/// A query `KEY=VALUE`, where the key holds none of `%`, `+`, `&`, `=` and
/// the value no `&`, decodes to that one pair, the value decoded.
pub proof fn lemma_single_pair_query(key: Seq<char>, value: Seq<char>)
    requires
        is_plain_value(key),
        has_no_amp(value),
        forall|j: int| 0 <= j < key.len() ==> key[j] != '=',
    ensures
        decoded_pairs(key + seq!['='] + value) == seq![(key, form_part(value))],
{
    let q = key + seq!['='] + value;
    let n = key.len() as int;
    assert forall|i: int| 0 <= i < q.len() implies q[i] != '&' by {
        if i < n {
            assert(q[i] == key[i]);
        } else if i > n {
            assert(q[i] == value[i - n - 1]);
        }
    }
    assert(!key.contains('%'));
    assert(!key.contains('+'));
    assert(form_part(key) == key);
    lemma_split_without_sep(q, '&');
    let segs = seq![q];
    assert(segs.drop_last() =~= Seq::<Seq<char>>::empty());
    assert(pairs_of(segs.drop_last()) =~= Seq::<(Seq<char>, Seq<char>)>::empty());
    assert(segs.last() == q);
    assert(q.len() > 0);
    assert(pairs_of(segs) =~= seq![pair_of(q)]);
    assert(is_first(q, '=', n)) by {
        assert forall|j: int| 0 <= j < n implies q[j] != '=' by {
            assert(q[j] == key[j]);
        }
    }
    lemma_first_unique(q, '=', n);
    assert(q.take(n) =~= key);
    assert(q.skip(n + 1) =~= value);
    assert(raw_pairs(q) == seq![(key, value)]);
    assert(decoded_pairs(q) =~= seq![(key, form_part(value))]);
}

/// A query naming `value` under one key decodes to that value exactly when
/// the key is `session_id` or one of its aliases.
proof fn lemma_single_key_session(key: Seq<char>, value: Seq<char>)
    ensures
        query_session_id(seq![(key, value)]) == (if is_session_key(key) {
            Some(value)
        } else {
            None
        }),
{
    let p = seq![(key, value)];
    assert(p.drop_last() =~= Seq::<(Seq<char>, Seq<char>)>::empty());
    assert(session_values(p.drop_last()) =~= Seq::<Seq<char>>::empty());
    if is_session_key(key) {
        assert(session_values(p) =~= seq![value]);
    } else {
        assert(session_values(p) =~= Seq::<Seq<char>>::empty());
    }
}

/// The field names `session_id`, `sessionId`, `sid` and `session` give the
/// same answer: the value given under any of them, decoded, is the session
/// targeted, whatever the headers hold.
pub proof fn lemma_session_aliases_agree(
    key: Seq<char>,
    value: Seq<char>,
    headers: Seq<(Seq<char>, Seq<u8>)>,
)
    requires
        is_session_key(key),
        has_no_amp(value),
    ensures
        requested_session(Some(key + seq!['='] + value), headers) == requested_session(
            Some(key_session_id() + seq!['='] + value),
            headers,
        ),
        requested_session(Some(key + seq!['='] + value), headers) == parsed_uuid(
            form_part(value),
        ),
{
    assert forall|j: int| 0 <= j < key.len() implies key[j] != '=' && key[j] != '%' && key[j]
        != '+' && key[j] != '&' by {
        if key == key_session_id() {
        } else if key == key_session_id_camel() {
        } else if key == key_sid() {
        } else {
            assert(key == key_session());
        }
    }
    let k0 = key_session_id();
    assert forall|j: int| 0 <= j < k0.len() implies k0[j] != '=' && k0[j] != '%' && k0[j] != '+'
        && k0[j] != '&' by {}
    lemma_single_pair_query(key, value);
    lemma_single_pair_query(k0, value);
    lemma_single_key_session(key, form_part(value));
    lemma_single_key_session(k0, form_part(value));
    assert(is_session_key(k0));
}

/// When the query names no session, the headers name it as
/// `?session_id=` would: the session the headers give is targeted exactly as
/// if it were given in the query and no header were sent.
pub proof fn lemma_headers_stand_in_for_query(
    raw: Option<Seq<char>>,
    headers: Seq<(Seq<char>, Seq<u8>)>,
    text: Seq<char>,
)
    requires
        raw_query_session_id(raw) is None,
        header_session_id(headers) == Some(text),
        is_plain_value(text),
    ensures
        requested_session(raw, headers) == requested_session(
            Some(key_session_id() + seq!['='] + text),
            Seq::<(Seq<char>, Seq<u8>)>::empty(),
        ),
        requested_session(raw, headers) == parsed_uuid(text),
{
    lemma_session_aliases_agree(key_session_id(), text, Seq::<(Seq<char>, Seq<u8>)>::empty());
    assert(!text.contains('%'));
    assert(!text.contains('+'));
    assert(form_part(text) == text);
}

/// A request whose query and headers both name no session targets none.
pub proof fn lemma_no_name_no_session(raw: Option<Seq<char>>, headers: Seq<(Seq<char>, Seq<u8>)>)
    requires
        raw_query_session_id(raw) is None,
        header_session_id(headers) is None,
    ensures
        requested_session(raw, headers) is None,
{
}

} // verus!

verus! {

/// The value of the first header named `name` is what a lookup gives.
pub proof fn lemma_header_lookup_first(h: Seq<(Seq<char>, Seq<u8>)>, name: Seq<char>, i: int)
    requires
        0 <= i < h.len(),
        h[i].0 == name,
        forall|k: int| 0 <= k < i ==> h[k].0 != name,
    ensures
        header_lookup(h, name) == Some(h[i].1),
    decreases i,
{
    if i > 0 {
        let t = h.drop_first();
        assert forall|k: int| 0 <= k < i - 1 implies t[k].0 != name by {
            assert(t[k] == h[k + 1]);
        }
        lemma_header_lookup_first(t, name, i - 1);
        assert(h[0].0 != name);
    }
}

/// Without a header named `name`, a lookup gives nothing.
pub proof fn lemma_header_lookup_none(h: Seq<(Seq<char>, Seq<u8>)>, name: Seq<char>)
    requires
        forall|k: int| 0 <= k < h.len() ==> h[k].0 != name,
    ensures
        header_lookup(h, name) is None,
    decreases h.len(),
{
    if h.len() > 0 {
        let t = h.drop_first();
        assert forall|k: int| 0 <= k < t.len() implies t[k].0 != name by {
            assert(t[k] == h[k + 1]);
        }
        lemma_header_lookup_none(t, name);
        assert(h[0].0 != name);
    }
}

/// The session header read is the first of `x-session-id`, `session_id`,
/// `sessionid`, `session-id` that the request carries: the value of that
/// header's first occurrence, read as text when it is visible ASCII, and
/// nothing when it is not, whatever the later names hold.
pub proof fn lemma_session_header_order(h: Seq<(Seq<char>, Seq<u8>)>, rank: int, i: int)
    requires
        0 <= rank < 4,
        0 <= i < h.len(),
        h[i].0 == session_header_names()[rank],
        forall|k: int| 0 <= k < i ==> h[k].0 != session_header_names()[rank],
        forall|r: int, k: int|
            #![trigger h[k], session_header_names()[r]]
            0 <= r < rank && 0 <= k < h.len() ==> h[k].0 != session_header_names()[r],
    ensures
        (forall|j: int| 0 <= j < h[i].1.len() ==> (32 <= #[trigger] h[i].1[j] < 127 || h[i].1[j] == 9))
            ==> header_session_id(h) == Some(h[i].1.map_values(|x: u8| x as char)),
        !(forall|j: int| 0 <= j < h[i].1.len() ==> (32 <= #[trigger] h[i].1[j] < 127 || h[i].1[j] == 9))
            ==> header_session_id(h) is None,
{
    let names = session_header_names();
    lemma_header_lookup_first(h, names[rank], i);
    assert forall|r: int| 0 <= r < rank implies header_lookup(h, #[trigger] names[r]) is None by {
        assert forall|k: int| 0 <= k < h.len() implies h[k].0 != names[r] by {
            assert(h[k].0 != session_header_names()[r]);
        }
        lemma_header_lookup_none(h, names[r]);
    }
    if rank >= 1 {
        assert(header_lookup(h, names[0]) is None);
    }
    if rank >= 2 {
        assert(header_lookup(h, names[1]) is None);
    }
    if rank >= 3 {
        assert(header_lookup(h, names[2]) is None);
    }
}

/// The session header names, in the order they are looked up:
/// `x-session-id`, `session_id`, `sessionid`, `session-id`.
pub open spec fn session_header_names() -> Seq<Seq<char>> {
    seq![
        seq!['x', '-', 's', 'e', 's', 's', 'i', 'o', 'n', '-', 'i', 'd'],
        seq!['s', 'e', 's', 's', 'i', 'o', 'n', '_', 'i', 'd'],
        seq!['s', 'e', 's', 's', 'i', 'o', 'n', 'i', 'd'],
        seq!['s', 'e', 's', 's', 'i', 'o', 'n', '-', 'i', 'd'],
    ]
}

/// A query `K1=V1&K2=V2`, where the keys hold none of `%`, `+`, `&`, `=`
/// and the values no `&`, decodes to those two pairs in order.
pub proof fn lemma_two_pair_query(k1: Seq<char>, v1: Seq<char>, k2: Seq<char>, v2: Seq<char>)
    requires
        is_plain_value(k1),
        is_plain_value(k2),
        has_no_amp(v1),
        has_no_amp(v2),
        forall|j: int| 0 <= j < k1.len() ==> k1[j] != '=',
        forall|j: int| 0 <= j < k2.len() ==> k2[j] != '=',
    ensures
        decoded_pairs(k1 + seq!['='] + v1 + seq!['&'] + k2 + seq!['='] + v2) == seq![
            (k1, form_part(v1)),
            (k2, form_part(v2)),
        ],
{
    let a = k1 + seq!['='] + v1;
    let b = k2 + seq!['='] + v2;
    let q = k1 + seq!['='] + v1 + seq!['&'] + k2 + seq!['='] + v2;
    assert(q =~= a.push('&') + b);
    assert forall|i: int| 0 <= i < a.len() implies a[i] != '&' by {
        if i < k1.len() {
            assert(a[i] == k1[i]);
        } else if i > k1.len() {
            assert(a[i] == v1[i - k1.len() - 1]);
        }
    }
    assert forall|i: int| 0 <= i < b.len() implies b[i] != '&' by {
        if i < k2.len() {
            assert(b[i] == k2[i]);
        } else if i > k2.len() {
            assert(b[i] == v2[i - k2.len() - 1]);
        }
    }
    lemma_split_at_first(a, '&', b);
    lemma_split_without_sep(b, '&');
    let segs = seq![a, b];
    assert(split_char(q, '&') =~= segs);
    lemma_pair_of_key_value(k1, v1);
    lemma_pair_of_key_value(k2, v2);
    assert(segs.drop_last() =~= seq![a]);
    assert(seq![a].drop_last() =~= Seq::<Seq<char>>::empty());
    assert(pairs_of(seq![a].drop_last()) =~= Seq::<(Seq<char>, Seq<char>)>::empty());
    assert(a.len() > 0 && b.len() > 0);
    assert(pairs_of(seq![a]) =~= seq![(k1, v1)]);
    assert(pairs_of(segs) =~= seq![(k1, v1), (k2, v2)]);
    assert(!k1.contains('%') && !k1.contains('+'));
    assert(!k2.contains('%') && !k2.contains('+'));
    assert(decoded_pairs(q) =~= seq![(k1, form_part(v1)), (k2, form_part(v2))]);
}

/// `KEY=VALUE`, the key without `=`, splits at that `=`.
pub proof fn lemma_pair_of_key_value(key: Seq<char>, value: Seq<char>)
    requires
        forall|j: int| 0 <= j < key.len() ==> key[j] != '=',
    ensures
        pair_of(key + seq!['='] + value) == (key, value),
{
    let q = key + seq!['='] + value;
    let n = key.len() as int;
    assert(is_first(q, '=', n)) by {
        assert forall|j: int| 0 <= j < n implies q[j] != '=' by {
            assert(q[j] == key[j]);
        }
    }
    lemma_first_unique(q, '=', n);
    assert(q.take(n) =~= key);
    assert(q.skip(n + 1) =~= value);
}

/// Giving the session field twice, under the same name or two of its
/// names, names no session: the query is invalid as a whole.
pub proof fn lemma_session_field_twice_names_none(
    k1: Seq<char>,
    v1: Seq<char>,
    k2: Seq<char>,
    v2: Seq<char>,
)
    requires
        is_session_key(k1),
        is_session_key(k2),
        has_no_amp(v1),
        has_no_amp(v2),
    ensures
        raw_query_session_id(Some(k1 + seq!['='] + v1 + seq!['&'] + k2 + seq!['='] + v2)) is None,
{
    lemma_session_keys_plain(k1);
    lemma_session_keys_plain(k2);
    lemma_two_pair_query(k1, v1, k2, v2);
    let p = seq![(k1, form_part(v1)), (k2, form_part(v2))];
    assert(p.drop_last() =~= seq![(k1, form_part(v1))]);
    assert(seq![(k1, form_part(v1))].drop_last() =~= Seq::<(Seq<char>, Seq<char>)>::empty());
    assert(session_values(Seq::<(Seq<char>, Seq<char>)>::empty()).len() == 0);
    assert(session_values(seq![(k1, form_part(v1))]) =~= seq![form_part(v1)]);
    assert(session_values(p) =~= seq![form_part(v1), form_part(v2)]);
}

/// A field under another name is ignored: `OTHER=X&KEY=V` names the
/// session `V` names, decoded.
pub proof fn lemma_other_fields_ignored(
    other: Seq<char>,
    x: Seq<char>,
    key: Seq<char>,
    v: Seq<char>,
)
    requires
        !is_session_key(other),
        is_plain_value(other),
        forall|j: int| 0 <= j < other.len() ==> other[j] != '=',
        has_no_amp(x),
        is_session_key(key),
        has_no_amp(v),
    ensures
        raw_query_session_id(Some(other + seq!['='] + x + seq!['&'] + key + seq!['='] + v)) == Some(
            form_part(v),
        ),
{
    lemma_session_keys_plain(key);
    lemma_two_pair_query(other, x, key, v);
    let p = seq![(other, form_part(x)), (key, form_part(v))];
    assert(p.drop_last() =~= seq![(other, form_part(x))]);
    assert(seq![(other, form_part(x))].drop_last() =~= Seq::<(Seq<char>, Seq<char>)>::empty());
    assert(session_values(Seq::<(Seq<char>, Seq<char>)>::empty()).len() == 0);
    assert(session_values(seq![(other, form_part(x))]) =~= Seq::<Seq<char>>::empty());
    assert(session_values(p) =~= seq![form_part(v)]);
}

/// The names of the session field hold none of `%`, `+`, `&`, `=`.
proof fn lemma_session_keys_plain(key: Seq<char>)
    requires
        is_session_key(key),
    ensures
        is_plain_value(key),
        forall|j: int| 0 <= j < key.len() ==> key[j] != '=',
{
    assert forall|j: int| 0 <= j < key.len() implies key[j] != '=' && key[j] != '%' && key[j]
        != '+' && key[j] != '&' by {
        if key == key_session_id() {
        } else if key == key_session_id_camel() {
        } else if key == key_sid() {
        } else {
            assert(key == key_session());
        }
    }
}

} // verus!
