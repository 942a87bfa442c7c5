use crate::config::{auth_view, AuthData, AuthView, Config, ConfigView};
use crate::error::{APIError, ErrorView};
use crate::json::{
    copy, elements, empty_object, json_elements, json_integer, json_member, json_parsed, json_text,
    member, member_text, opt_view, parse, text_member,
};
use crate::tags::{all_subjects, collect_tag_counts, count_views, is_tally_of, tally, TagCount};
use crate::text::{
    chars_of, has_prefix, skip_run, starts_with_at, string_of, texts, trim_end, trim_start,
    trimmed_len,
};
use crate::token::{new_session, refresh_due, session_of, should_refresh_token};
use vstd::prelude::*;

verus! {

/// The page size that every search asks for.
pub const SEARCH_PAGE_SIZE: &'static str = "1000";

/// The keys of a list of pairs.
pub open spec fn keys_of(s: Seq<(String, String)>) -> Seq<Seq<char>> {
    Seq::new(s.len(), |i: int| s[i].0@)
}

/// The mapping that a list of pairs with distinct keys stands for.
pub open spec fn pairs_map(s: Seq<(String, String)>) -> Map<Seq<char>, Seq<char>> {
    Map::new(|k: Seq<char>| keys_of(s).contains(k), |k: Seq<char>| s[keys_of(s).index_of(k)].1@)
}

/// `base` with the pairs of `extra` entered in order, a later one replacing an
/// earlier one under the same key.
pub open spec fn merged(base: Map<Seq<char>, Seq<char>>, extra: Seq<(String, String)>) -> Map<
    Seq<char>,
    Seq<char>,
>
    decreases extra.len(),
{
    if extra.len() == 0 {
        base
    } else {
        merged(base, extra.drop_last()).insert(extra.last().0@, extra.last().1@)
    }
}

/// Enters `value` under `key`, in the place of the pair that has that key or at
/// the end.
pub fn set_pair(pairs: &mut Vec<(String, String)>, key: String, value: String)
    requires
        keys_of(old(pairs)@).no_duplicates(),
    ensures
        keys_of(final(pairs)@).no_duplicates(),
        pairs_map(final(pairs)@) == pairs_map(old(pairs)@).insert(key@, value@),
{
    let ghost before = pairs@;
    let mut i: usize = 0;
    while i < pairs.len()
        invariant
            i <= pairs.len(),
            pairs@ == before,
            before == old(pairs)@,
            keys_of(before).no_duplicates(),
            forall|k: int| 0 <= k < i ==> keys_of(before)[k] != key@,
        decreases pairs.len() - i,
    {
        if pairs[i].0 == key {
            let ghost key_view = key@;
            let ghost value_view = value@;
            pairs.set(i, (key, value));
            proof {
                assert(keys_of(before)[i as int] == key_view);
                assert(keys_of(pairs@) =~= keys_of(before));
                assert(keys_of(before).contains(key_view));
                let at = keys_of(before).index_of(key_view);
                if at != i {
                    assert(keys_of(before)[at] != keys_of(before)[i as int]);
                }
                assert(pairs_map(pairs@) =~= pairs_map(before).insert(key_view, value_view)) by {
                    assert forall|k: Seq<char>| #[trigger]
                        pairs_map(pairs@).dom().contains(k) implies pairs_map(pairs@)[k]
                        == pairs_map(before).insert(key_view, value_view)[k] by {
                        let j = keys_of(before).index_of(k);
                        if k != key_view {
                            assert(j != i);
                        }
                    }
                }
            }
            return ;
        }
        i = i + 1;
    }
    let ghost key_view = key@;
    let ghost value_view = value@;
    pairs.push((key, value));
    proof {
        assert(!keys_of(before).contains(key_view));
        assert(keys_of(pairs@) =~= keys_of(before).push(key_view));
        assert forall|a: int, b: int|
            0 <= a < keys_of(pairs@).len() && 0 <= b < keys_of(pairs@).len() && a
                != b implies keys_of(pairs@)[a] != keys_of(pairs@)[b] by {
            if a < before.len() && b < before.len() {
                assert(keys_of(before)[a] != keys_of(before)[b]);
            } else if a < before.len() {
                assert(keys_of(before).contains(keys_of(before)[a]));
            } else {
                assert(keys_of(before).contains(keys_of(before)[b]));
            }
        }
        assert(pairs_map(pairs@) =~= pairs_map(before).insert(key_view, value_view)) by {
            assert forall|k: Seq<char>|
                pairs_map(before).insert(key_view, value_view).dom().contains(
                    k,
                ) implies #[trigger] pairs_map(pairs@).dom().contains(k) by {
                if k == key_view {
                    assert(keys_of(pairs@)[before.len() as int] == k);
                } else {
                    let j = keys_of(before).index_of(k);
                    assert(keys_of(pairs@)[j] == k);
                }
            }
            assert forall|k: Seq<char>| #[trigger]
                pairs_map(pairs@).dom().contains(k) implies pairs_map(before).insert(
                key_view,
                value_view,
            ).dom().contains(k) && pairs_map(pairs@)[k] == pairs_map(before).insert(
                key_view,
                value_view,
            )[k] by {
                let j = keys_of(pairs@).index_of(k);
                if j < before.len() {
                    assert(keys_of(before)[j] == k);
                    assert(keys_of(before).contains(k));
                    let j2 = keys_of(before).index_of(k);
                    if j2 != j {
                        assert(keys_of(pairs@)[j2] != keys_of(pairs@)[j]);
                    }
                }
            }
        }
    }
}

/// Enters the pairs of `extra` into `pairs` in order.
pub fn merge_pairs(pairs: &mut Vec<(String, String)>, extra: &Vec<(String, String)>)
    requires
        keys_of(old(pairs)@).no_duplicates(),
    ensures
        keys_of(final(pairs)@).no_duplicates(),
        pairs_map(final(pairs)@) == merged(pairs_map(old(pairs)@), extra@),
{
    let ghost base = pairs_map(pairs@);
    let mut i: usize = 0;
    assert(extra@.take(0) =~= Seq::empty());
    while i < extra.len()
        invariant
            i <= extra.len(),
            keys_of(pairs@).no_duplicates(),
            pairs_map(pairs@) == merged(base, extra@.take(i as int)),
        decreases extra.len() - i,
    {
        proof {
            assert(extra@.take(i + 1).drop_last() =~= extra@.take(i as int));
            assert(extra@.take(i + 1).last() == extra@[i as int]);
        }
        set_pair(pairs, extra[i].0.clone(), extra[i].1.clone());
        i = i + 1;
    }
    assert(extra@.take(i as int) =~= extra@);
}

/// The address is complete in itself: it begins with `http://` or `https://`.
pub open spec fn is_absolute(p: Seq<char>) -> bool {
    has_prefix(p, "http://"@) || has_prefix(p, "https://"@)
}

/// The address that a path or address stands for against a base endpoint: an
/// absolute address as it is; else the base without trailing separators, one
/// separator, and the path without leading separators.
pub open spec fn resolved(path: Option<Seq<char>>, base: Seq<char>) -> Seq<char> {
    match path {
        Some(p) => if is_absolute(p) {
            p
        } else {
            trim_end(base, '/') + seq!['/'] + trim_start(p, '/')
        },
        None => trim_end(base, '/') + seq!['/'],
    }
}

/// An absolute address is resolved to itself, whatever the base; any other path
/// is joined to the base by exactly one separator: the base comes without a
/// separator at its end and the path without one at its front.
pub proof fn lemma_resolved(path: Seq<char>, base: Seq<char>)
    ensures
        is_absolute(path) ==> resolved(Some(path), base) == path,
        !is_absolute(path) ==> resolved(Some(path), base) == trim_end(base, '/') + seq!['/']
            + trim_start(path, '/'),
        trim_end(base, '/').len() > 0 ==> trim_end(base, '/').last() != '/',
        trim_start(path, '/').len() > 0 ==> trim_start(path, '/')[0] != '/',
{
    crate::text::lemma_trimmed(base, '/');
    crate::text::lemma_trimmed(path, '/');
}

/// The view of an optional text.
pub open spec fn opt_str_view(s: Option<&str>) -> Option<Seq<char>> {
    match s {
        Some(t) => Some(t@),
        None => None,
    }
}

/// Resolves a path or address against the base endpoint.
pub fn resolve_url(path_or_url: Option<&str>, base: &str) -> (r: String)
    ensures
        r@ == resolved(opt_str_view(path_or_url), base@),
{
    let base_chars = chars_of(base);
    let keep = trimmed_len(&base_chars, '/');
    match path_or_url {
        Some(p) => {
            let chars = chars_of(p);
            let http = chars_of("http://");
            let https = chars_of("https://");
            assert(chars@.skip(0) =~= chars@);
            if starts_with_at(&chars, 0, &http) || starts_with_at(&chars, 0, &https) {
                return p.to_owned();
            }
            let start = skip_run(&chars, 0, '/');
            let mut out = string_of(&base_chars, 0, keep);
            out.push('/');
            let tail = string_of(&chars, start, chars.len());
            out.append(tail.as_str());
            assert(base_chars@.subrange(0, keep as int) =~= base_chars@.take(keep as int));
            assert(chars@.subrange(start as int, chars.len() as int) =~= chars@.skip(
                start as int,
            ));
            assert(out@ =~= trim_end(base@, '/') + seq!['/'] + trim_start(p@, '/'));
            out
        },
        None => {
            let mut out = string_of(&base_chars, 0, keep);
            out.push('/');
            assert(base_chars@.subrange(0, keep as int) =~= base_chars@.take(keep as int));
            assert(out@ =~= trim_end(base@, '/') + seq!['/']);
            out
        },
    }
}

/// The verb of a request.
#[derive(Debug, Clone, Copy, PartialEq, Eq)]
pub enum Method {
    Get,
    Post,
    Patch,
}

/// A member of the JSON object that a request carries.
#[derive(Debug, Clone, PartialEq, Eq)]
pub enum BodyValue {
    Text(String),
    List(Vec<String>),
}

/// The mathematical content of a `BodyValue`.
pub enum BodyView {
    Text(Seq<char>),
    List(Seq<Seq<char>>),
}

impl View for BodyValue {
    type V = BodyView;

    open spec fn view(&self) -> BodyView {
        match *self {
            BodyValue::Text(t) => BodyView::Text(t@),
            BodyValue::List(l) => BodyView::List(texts(l@)),
        }
    }
}

/// A request to the repository, ready to be sent: each header and each query
/// parameter once, and the members of the JSON object that it carries, if any.
#[derive(Debug, Clone, PartialEq, Eq)]
pub struct Request {
    pub method: Method,
    pub url: String,
    pub headers: Vec<(String, String)>,
    pub params: Vec<(String, String)>,
    pub body: Vec<(String, BodyValue)>,
}

/// The mathematical content of a `Request`.
pub struct RequestView {
    pub method: Method,
    pub url: Seq<char>,
    pub headers: Map<Seq<char>, Seq<char>>,
    pub params: Map<Seq<char>, Seq<char>>,
    pub body: Seq<(Seq<char>, BodyView)>,
}

impl View for Request {
    type V = RequestView;

    open spec fn view(&self) -> RequestView {
        RequestView {
            method: self.method,
            url: self.url@,
            headers: pairs_map(self.headers@),
            params: pairs_map(self.params@),
            body: Seq::new(self.body@.len(), |i: int| (self.body@[i].0@, self.body@[i].1@)),
        }
    }
}

impl Request {
    /// No header and no query parameter stands twice.
    pub open spec fn wf(&self) -> bool {
        keys_of(self.headers@).no_duplicates() && keys_of(self.params@).no_duplicates()
    }
}

/// The pairs of an optional list.
pub open spec fn given(pairs: Option<Vec<(String, String)>>) -> Seq<(String, String)> {
    match pairs {
        Some(p) => p@,
        None => Seq::empty(),
    }
}

/// The session's token is sent: there is a session of mode `token` with a
/// token, and the caller has not asked to go without.
pub open spec fn sends_token(auth: Option<AuthView>, no_auth: bool) -> bool {
    !no_auth && auth is Some && auth->0.mode == "token"@ && auth->0.token.len() > 0
}

/// The value of an `Authorization` header for a token.
pub open spec fn bearer(token: Seq<char>) -> Seq<char> {
    "Bearer "@ + token
}

/// The headers that identify the caller to the repository.
pub open spec fn auth_headers(auth: Option<AuthView>, no_auth: bool) -> Map<Seq<char>, Seq<char>> {
    if sends_token(auth, no_auth) {
        Map::empty().insert("Authorization"@, bearer(auth->0.token))
    } else {
        Map::empty()
    }
}

/// The headers that a verb adds after those that identify the caller.
pub open spec fn with_method_headers(headers: Map<Seq<char>, Seq<char>>, method: Method) -> Map<
    Seq<char>,
    Seq<char>,
> {
    match method {
        Method::Get => headers,
        Method::Post => headers.insert("Content-Type"@, "application/json"@),
        Method::Patch => headers.insert("Content-Type"@, "application/json"@).insert(
            "Accept"@,
            "application/json"@,
        ),
    }
}

/// The request that fetches, creates or updates content: the resolved address,
/// the caller's token where it is sent, the headers of the verb, then the
/// headers that the caller gives, and the caller's query parameters.
pub open spec fn content_request(
    method: Method,
    config: ConfigView,
    path: Option<Seq<char>>,
    headers: Seq<(String, String)>,
    params: Seq<(String, String)>,
    no_auth: bool,
) -> RequestView {
    RequestView {
        method,
        url: resolved(path, config.base),
        headers: merged(with_method_headers(auth_headers(config.auth, no_auth), method), headers),
        params: merged(Map::empty(), params),
        body: Seq::empty(),
    }
}

/// The query parameters of a search: the page size, what is searched for under
/// `key`, and the path below which is searched, if one is given.
pub open spec fn search_params(key: Seq<char>, value: Seq<char>, path: Option<Seq<char>>) -> Map<
    Seq<char>,
    Seq<char>,
> {
    let base = Map::empty().insert(key, value).insert("b_size"@, SEARCH_PAGE_SIZE@);
    match path {
        Some(p) => base.insert("path"@, p),
        None => base,
    }
}

/// The request of a search.
pub open spec fn search_request(
    config: ConfigView,
    key: Seq<char>,
    value: Seq<char>,
    path: Option<Seq<char>>,
    no_auth: bool,
) -> RequestView {
    RequestView {
        method: Method::Get,
        url: resolved(Some("@search"@), config.base),
        headers: auth_headers(config.auth, no_auth),
        params: search_params(key, value, path),
        body: Seq::empty(),
    }
}

/// The request that writes the tags of the item at `item_path`.
pub open spec fn subjects_request(
    config: ConfigView,
    item_path: Seq<char>,
    subjects: Seq<Seq<char>>,
    no_auth: bool,
) -> RequestView {
    RequestView {
        method: Method::Patch,
        url: resolved(Some(item_path), config.base),
        headers: with_method_headers(auth_headers(config.auth, no_auth), Method::Patch),
        params: Map::empty(),
        body: seq![("Subject"@, BodyView::List(subjects))],
    }
}

/// The request that logs in at `base`.
pub open spec fn login_request_of(
    base: Seq<char>,
    username: Seq<char>,
    password: Seq<char>,
) -> RequestView {
    RequestView {
        method: Method::Post,
        url: resolved(Some("@login"@), base),
        headers: Map::empty().insert("Content-Type"@, "application/json"@),
        params: Map::empty(),
        body: seq![("login"@, BodyView::Text(username)), ("password"@, BodyView::Text(password))],
    }
}

/// The request that renews `token` at `base`.
pub open spec fn renew_request_of(base: Seq<char>, token: Seq<char>) -> RequestView {
    RequestView {
        method: Method::Post,
        url: resolved(Some("@login-renew"@), base),
        headers: Map::empty().insert("Authorization"@, bearer(token)),
        params: Map::empty(),
        body: Seq::empty(),
    }
}

/// An empty list of pairs stands for the empty mapping.
pub proof fn lemma_no_pairs(s: Seq<(String, String)>)
    requires
        s.len() == 0,
    ensures
        pairs_map(s) == Map::<Seq<char>, Seq<char>>::empty(),
        keys_of(s).no_duplicates(),
{
    assert(pairs_map(s) =~= Map::<Seq<char>, Seq<char>>::empty());
}

/// The headers that identify the caller, as a list.
pub fn auth_header_list(auth: &Option<AuthData>, no_auth: bool) -> (r: Vec<(String, String)>)
    ensures
        keys_of(r@).no_duplicates(),
        pairs_map(r@) == auth_headers(auth_view(*auth), no_auth),
{
    let mut headers: Vec<(String, String)> = Vec::new();
    proof {
        lemma_no_pairs(headers@);
    }
    if !no_auth {
        match auth {
            Some(a) => {
                if a.mode == "token".to_owned() && !a.token.as_str().is_empty() {
                    let mut value = "Bearer ".to_owned();
                    value.append(a.token.as_str());
                    set_pair(&mut headers, "Authorization".to_owned(), value);
                }
            },
            None => {},
        }
    }
    headers
}

/// Adds the headers of a verb.
pub fn add_method_headers(headers: &mut Vec<(String, String)>, method: Method)
    requires
        keys_of(old(headers)@).no_duplicates(),
    ensures
        keys_of(final(headers)@).no_duplicates(),
        pairs_map(final(headers)@) == with_method_headers(pairs_map(old(headers)@), method),
{
    match method {
        Method::Get => {},
        Method::Post => {
            set_pair(headers, "Content-Type".to_owned(), "application/json".to_owned());
        },
        Method::Patch => {
            set_pair(headers, "Content-Type".to_owned(), "application/json".to_owned());
            set_pair(headers, "Accept".to_owned(), "application/json".to_owned());
        },
    }
}

/// Builds the request that fetches, creates or updates content.
pub fn build_content_request(
    method: Method,
    config: &Config,
    path_or_url: Option<&str>,
    headers: Option<Vec<(String, String)>>,
    params: Option<Vec<(String, String)>>,
    no_auth: bool,
) -> (r: Request)
    ensures
        r.wf(),
        r@ == content_request(
            method,
            config@,
            opt_str_view(path_or_url),
            given(headers),
            given(params),
            no_auth,
        ),
{
    let url = resolve_url(path_or_url, config.base.as_str());
    let mut all_headers = auth_header_list(&config.auth, no_auth);
    add_method_headers(&mut all_headers, method);
    match &headers {
        Some(h) => {
            merge_pairs(&mut all_headers, h);
        },
        None => {},
    }
    let mut all_params: Vec<(String, String)> = Vec::new();
    proof {
        lemma_no_pairs(all_params@);
    }
    match &params {
        Some(p) => {
            merge_pairs(&mut all_params, p);
        },
        None => {},
    }
    let r = Request { method, url, headers: all_headers, params: all_params, body: Vec::new() };
    assert(r@.body =~= Seq::empty());
    r
}

/// Builds the request of a search for the items whose `key` is `value`.
pub fn build_search_request(
    config: &Config,
    key: &str,
    value: &str,
    path: Option<&str>,
    no_auth: bool,
) -> (r: Request)
    ensures
        r.wf(),
        r@ == search_request(config@, key@, value@, opt_str_view(path), no_auth),
{
    let url = resolve_url(Some("@search"), config.base.as_str());
    let headers = auth_header_list(&config.auth, no_auth);
    let mut params: Vec<(String, String)> = Vec::new();
    proof {
        lemma_no_pairs(params@);
    }
    set_pair(&mut params, key.to_owned(), value.to_owned());
    set_pair(&mut params, "b_size".to_owned(), SEARCH_PAGE_SIZE.to_owned());
    match path {
        Some(p) => {
            set_pair(&mut params, "path".to_owned(), p.to_owned());
        },
        None => {},
    }
    let r = Request { method: Method::Get, url, headers, params, body: Vec::new() };
    assert(r@.body =~= Seq::empty());
    r
}

/// Builds the request that logs in at `base`.
pub fn login_request(base: &str, username: &str, password: &str) -> (r: Request)
    ensures
        r.wf(),
        r@ == login_request_of(base@, username@, password@),
{
    let url = resolve_url(Some("@login"), base);
    let mut headers: Vec<(String, String)> = Vec::new();
    let params: Vec<(String, String)> = Vec::new();
    proof {
        lemma_no_pairs(headers@);
        lemma_no_pairs(params@);
    }
    set_pair(&mut headers, "Content-Type".to_owned(), "application/json".to_owned());
    let mut body: Vec<(String, BodyValue)> = Vec::new();
    body.push(("login".to_owned(), BodyValue::Text(username.to_owned())));
    body.push(("password".to_owned(), BodyValue::Text(password.to_owned())));
    let r = Request { method: Method::Post, url, headers, params, body };
    assert(r@.body =~= login_request_of(base@, username@, password@).body);
    r
}

/// Builds the request that renews `current_token` at `base`.
pub fn renew_request(base: &str, current_token: &str) -> (r: Request)
    ensures
        r.wf(),
        r@ == renew_request_of(base@, current_token@),
{
    let url = resolve_url(Some("@login-renew"), base);
    let mut headers: Vec<(String, String)> = Vec::new();
    let params: Vec<(String, String)> = Vec::new();
    proof {
        lemma_no_pairs(headers@);
        lemma_no_pairs(params@);
    }
    let mut value = "Bearer ".to_owned();
    value.append(current_token);
    set_pair(&mut headers, "Authorization".to_owned(), value);
    let r = Request { method: Method::Post, url, headers, params, body: Vec::new() };
    assert(r@.body =~= Seq::empty());
    r
}

/// The request that lists the tags: a search that asks for all metadata fields.
pub open spec fn tags_request(
    config: ConfigView,
    path: Option<Seq<char>>,
    no_auth: bool,
) -> RequestView {
    let base = Map::empty().insert("b_size"@, SEARCH_PAGE_SIZE@).insert(
        "metadata_fields"@,
        "_all"@,
    );
    RequestView {
        method: Method::Get,
        url: resolved(Some("@search"@), config.base),
        headers: auth_headers(config.auth, no_auth),
        params: match path {
            Some(p) => base.insert("path"@, p),
            None => base,
        },
        body: Seq::empty(),
    }
}

/// A status that reports success: 200 to 299.
pub open spec fn is_success(status: u16) -> bool {
    200 <= status < 300
}

/// What a read makes of an answer: the error of a status that reports no
/// success, else the document in the body, else the error of a body that is
/// none.
pub open spec fn read_result(url: Seq<char>, status: u16, body: Seq<u8>) -> Result<
    serde_json::Value,
    ErrorView,
> {
    if !is_success(status) {
        Err(ErrorView::HttpStatus(status as nat, url))
    } else {
        match json_parsed(body) {
            Some(doc) => Ok(doc),
            None => Err(ErrorView::InvalidJson),
        }
    }
}

/// A JSON value in which nothing can be read: it has no member under any key,
/// and is no string, no integer and no array. An object without members is
/// such a value.
pub open spec fn holds_nothing(v: serde_json::Value) -> bool {
    &&& forall|key: Seq<char>| json_member(v, key) is None
    &&& json_text(v) is None
    &&& json_integer(v) is None
    &&& json_elements(v) is None
}

/// The items of a search result: the elements of its `items` array, none where
/// it has no such array.
pub open spec fn items_of(doc: serde_json::Value) -> Seq<serde_json::Value> {
    match json_member(doc, "items"@) {
        Some(m) => match json_elements(m) {
            Some(e) => e,
            None => Seq::empty(),
        },
        None => Seq::empty(),
    }
}

/// The error that is reported where the repository could not be reached.
pub fn request_failed(url: String, cause: String) -> (r: APIError)
    ensures
        r@ == ErrorView::RequestError(url@, cause@),
{
    APIError::RequestError(url, cause)
}

/// Whether a status reports success.
pub fn status_is_success(status: u16) -> (r: bool)
    ensures
        r == is_success(status),
{
    200 <= status && status < 300
}

/// Reads the answer to a request that fetches: the address asked and the
/// document received.
pub fn read_response(url: String, status: u16, body: &[u8]) -> (r: Result<
    (String, serde_json::Value),
    APIError,
>)
    ensures
        match r {
            Ok(pair) => pair.0@ == url@ && read_result(url@, status, body@) == Ok::<
                serde_json::Value,
                ErrorView,
            >(pair.1),
            Err(e) => read_result(url@, status, body@) == Err::<serde_json::Value, ErrorView>(e@),
        },
{
    if !status_is_success(status) {
        return Err(APIError::HttpStatus(status, url));
    }
    match parse(body) {
        Some(doc) => Ok((url, doc)),
        None => Err(APIError::InvalidJson),
    }
}

/// Reads the answer to a request that writes. A body that is no document does
/// not fail the write: an object without members stands in for it, of which
/// the contract says that nothing can be read in it.
pub fn write_response(url: String, status: u16, body: &[u8]) -> (r: Result<
    (String, serde_json::Value),
    APIError,
>)
    ensures
        match r {
            Ok(pair) => {
                &&& is_success(status)
                &&& pair.0@ == url@
                &&& match json_parsed(body@) {
                    Some(doc) => pair.1 == doc,
                    None => holds_nothing(pair.1),
                }
            },
            Err(e) => !is_success(status) && e@ == ErrorView::HttpStatus(status as nat, url@),
        },
{
    if !status_is_success(status) {
        return Err(APIError::HttpStatus(status, url));
    }
    match parse(body) {
        Some(doc) => Ok((url, doc)),
        None => Ok((url, empty_object())),
    }
}

/// Copies the items out of a search result.
pub fn search_items(doc: &serde_json::Value) -> (r: Vec<serde_json::Value>)
    ensures
        r@ == items_of(*doc),
{
    let mut out: Vec<serde_json::Value> = Vec::new();
    match member(doc, "items") {
        Some(m) => match elements(m) {
            Some(e) => {
                let mut i: usize = 0;
                while i < e.len()
                    invariant
                        i <= e.len(),
                        out@ == e@.take(i as int),
                    decreases e.len() - i,
                {
                    out.push(copy(&e[i]));
                    assert(out@ =~= e@.take(i + 1));
                    i = i + 1;
                }
                assert(e@.take(i as int) =~= e@);
            },
            None => {},
        },
        None => {},
    }
    out
}

/// Copies the items out of a document that has to hold them: `None` where its
/// `items` member is no array.
pub fn listed_items(doc: &serde_json::Value) -> (r: Option<Vec<serde_json::Value>>)
    ensures
        match r {
            Some(items) => json_member(*doc, "items"@) is Some && json_elements(
                json_member(*doc, "items"@)->0,
            ) == Some(items@),
            None => json_member(*doc, "items"@) is None || json_elements(
                json_member(*doc, "items"@)->0,
            ) is None,
        },
{
    match member(doc, "items") {
        Some(m) => match elements(m) {
            Some(_) => Some(search_items(doc)),
            None => None,
        },
        None => None,
    }
}

/// Reads the answer to a search: the items found.
pub fn search_response(url: String, status: u16, body: &[u8]) -> (r: Result<
    Vec<serde_json::Value>,
    APIError,
>)
    ensures
        match r {
            Ok(items) => read_result(url@, status, body@) is Ok && items@ == items_of(
                read_result(url@, status, body@)->Ok_0,
            ),
            Err(e) => read_result(url@, status, body@) == Err::<serde_json::Value, ErrorView>(e@),
        },
{
    match read_response(url, status, body) {
        Ok(pair) => Ok(search_items(&pair.1)),
        Err(e) => Err(e),
    }
}

/// Reads the answer to the request that lists the tags: how often each tag
/// occurs over the items found.
pub fn tags_response(url: String, status: u16, body: &[u8]) -> (r: Result<Vec<TagCount>, APIError>)
    ensures
        match r {
            Ok(counts) => {
                &&& read_result(url@, status, body@) is Ok
                &&& count_views(counts@) == tally(
                    all_subjects(items_of(read_result(url@, status, body@)->Ok_0)),
                )
                &&& is_tally_of(
                    count_views(counts@),
                    all_subjects(items_of(read_result(url@, status, body@)->Ok_0)),
                )
            },
            Err(e) => read_result(url@, status, body@) == Err::<serde_json::Value, ErrorView>(e@),
        },
{
    match search_response(url, status, body) {
        Ok(items) => Ok(collect_tag_counts(&items)),
        Err(e) => Err(e),
    }
}

/// The text of the error of a login whose answer holds no token.
pub open spec fn no_token() -> Seq<char> {
    "Login response did not include a token"@
}

/// What a login makes of an answer and of the configuration: the document
/// received and the endpoint and session replaced, or an error and the
/// configuration as it was.
pub open spec fn login_result(
    config: ConfigView,
    base: Seq<char>,
    username: Seq<char>,
    url: Seq<char>,
    status: u16,
    body: Seq<u8>,
    now: int,
) -> (Result<serde_json::Value, ErrorView>, ConfigView) {
    match read_result(url, status, body) {
        Err(e) => (Err(e), config),
        Ok(doc) => match text_member(doc, "token"@) {
            Some(token) => (
                Ok(doc),
                ConfigView { base, auth: Some(session_of(token, Some(username), now)) },
            ),
            None => (Err(ErrorView::Other(no_token())), config),
        },
    }
}

/// What a renewal makes of an answer and of the configuration: the new token
/// and the session replaced, or nothing and the configuration as it was.
pub open spec fn renew_result(
    config: ConfigView,
    status: u16,
    body: Seq<u8>,
    username: Option<Seq<char>>,
    now: int,
) -> (Option<Seq<char>>, ConfigView) {
    if !is_success(status) {
        (None, config)
    } else {
        match json_parsed(body) {
            None => (None, config),
            Some(doc) => match text_member(doc, "token"@) {
                Some(token) => (
                    Some(token),
                    ConfigView { base: config.base, auth: Some(session_of(token, username, now)) },
                ),
                None => (None, config),
            },
        }
    }
}

/// The gateway to the repository: it holds the configuration, builds each
/// request from it and takes from each answer what changes it. Sending is
/// left to the caller.
pub struct APIClient {
    pub config: Config,
}

impl APIClient {
    /// A gateway that works with `config`.
    pub fn with_config(config: Config) -> (r: Self)
        ensures
            r.config@ == config@,
    {
        APIClient { config }
    }

    /// The base endpoint.
    pub fn get_base_url(&self) -> (r: String)
        ensures
            r@ == self.config@.base,
    {
        self.config.get_base_url()
    }

    /// Sets the base endpoint and drops the session held against the old one.
    pub fn set_base_url(&mut self, base: String)
        ensures
            final(self).config@ == (ConfigView { base: base@, auth: None }),
    {
        self.config.set_base_url(base);
    }

    /// Drops the session; the base endpoint stays.
    pub fn delete_config(&mut self)
        ensures
            final(self).config@ == (ConfigView { base: old(self).config@.base, auth: None }),
    {
        self.config.clear();
    }

    /// Whether the session is due for renewal at the time `now`.
    pub fn renewal_due(&self, now: i64) -> (r: bool)
        ensures
            r == (self.config@.auth is Some && refresh_due(self.config@.auth->0, now as int)),
    {
        match &self.config.auth {
            Some(a) => should_refresh_token(a, now),
            None => false,
        }
    }

    /// The request that fetches content.
    pub fn fetch_request(
        &self,
        path_or_url: Option<&str>,
        headers: Option<Vec<(String, String)>>,
        params: Option<Vec<(String, String)>>,
        no_auth: bool,
    ) -> (r: Request)
        ensures
            r.wf(),
            r@ == content_request(
                Method::Get,
                self.config@,
                opt_str_view(path_or_url),
                given(headers),
                given(params),
                no_auth,
            ),
    {
        build_content_request(Method::Get, &self.config, path_or_url, headers, params, no_auth)
    }

    /// The request that creates content; the caller adds the document.
    pub fn post_request(
        &self,
        path_or_url: Option<&str>,
        headers: Option<Vec<(String, String)>>,
        no_auth: bool,
    ) -> (r: Request)
        ensures
            r.wf(),
            r@ == content_request(
                Method::Post,
                self.config@,
                opt_str_view(path_or_url),
                given(headers),
                Seq::empty(),
                no_auth,
            ),
    {
        build_content_request(Method::Post, &self.config, path_or_url, headers, None, no_auth)
    }

    /// The request that updates content in part; the caller adds the document.
    pub fn patch_request(
        &self,
        path_or_url: Option<&str>,
        headers: Option<Vec<(String, String)>>,
        no_auth: bool,
    ) -> (r: Request)
        ensures
            r.wf(),
            r@ == content_request(
                Method::Patch,
                self.config@,
                opt_str_view(path_or_url),
                given(headers),
                Seq::empty(),
                no_auth,
            ),
    {
        build_content_request(Method::Patch, &self.config, path_or_url, headers, None, no_auth)
    }

    /// The request that searches for the items of a type.
    pub fn search_by_type_request(
        &self,
        portal_type: &str,
        path: Option<&str>,
        no_auth: bool,
    ) -> (r: Request)
        ensures
            r.wf(),
            r@ == search_request(
                self.config@,
                "portal_type"@,
                portal_type@,
                opt_str_view(path),
                no_auth,
            ),
    {
        build_search_request(&self.config, "portal_type", portal_type, path, no_auth)
    }

    /// The request that searches for the items that carry a tag.
    pub fn search_by_subject_request(
        &self,
        subject: &str,
        path: Option<&str>,
        no_auth: bool,
    ) -> (r: Request)
        ensures
            r.wf(),
            r@ == search_request(self.config@, "Subject"@, subject@, opt_str_view(path), no_auth),
    {
        build_search_request(&self.config, "Subject", subject, path, no_auth)
    }

    /// The request that lists the tags. Without a base endpoint there is nothing
    /// to ask.
    pub fn all_tags_request(&self, path: Option<&str>, no_auth: bool) -> (r: Result<
        Request,
        APIError,
    >)
        ensures
            match r {
                Ok(request) => self.config@.base.len() > 0 && request.wf() && request@
                    == tags_request(self.config@, opt_str_view(path), no_auth),
                Err(e) => self.config@.base.len() == 0 && e@ == ErrorView::Unauthenticated,
            },
    {
        if self.config.base.as_str().is_empty() {
            return Err(APIError::Unauthenticated);
        }
        let url = resolve_url(Some("@search"), self.config.base.as_str());
        let headers = auth_header_list(&self.config.auth, no_auth);
        let mut params: Vec<(String, String)> = Vec::new();
        proof {
            lemma_no_pairs(params@);
        }
        set_pair(&mut params, "b_size".to_owned(), SEARCH_PAGE_SIZE.to_owned());
        set_pair(&mut params, "metadata_fields".to_owned(), "_all".to_owned());
        match path {
            Some(p) => {
                set_pair(&mut params, "path".to_owned(), p.to_owned());
            },
            None => {},
        }
        let r = Request { method: Method::Get, url, headers, params, body: Vec::new() };
        assert(r@.body =~= Seq::empty());
        Ok(r)
    }

    /// The request that writes `subjects` as the tags of the item at `item_path`.
    pub fn update_item_subjects_request(
        &self,
        item_path: &str,
        subjects: Vec<String>,
        no_auth: bool,
    ) -> (r: Request)
        ensures
            r.wf(),
            r@ == subjects_request(self.config@, item_path@, texts(subjects@), no_auth),
    {
        let url = resolve_url(Some(item_path), self.config.base.as_str());
        let mut headers = auth_header_list(&self.config.auth, no_auth);
        add_method_headers(&mut headers, Method::Patch);
        let params: Vec<(String, String)> = Vec::new();
        proof {
            lemma_no_pairs(params@);
        }
        let ghost tags = texts(subjects@);
        let mut body: Vec<(String, BodyValue)> = Vec::new();
        body.push(("Subject".to_owned(), BodyValue::List(subjects)));
        let r = Request { method: Method::Patch, url, headers, params, body };
        assert(r@.body =~= seq![("Subject"@, BodyView::List(tags))]);
        r
    }

    /// Takes the answer to a login at `base`, received at the time `now`: where
    /// it holds a token, the endpoint and the session are replaced; else the
    /// configuration stays as it was.
    pub fn login_response(
        &mut self,
        base: &str,
        username: &str,
        url: String,
        status: u16,
        body: &[u8],
        now: i64,
    ) -> (r: Result<serde_json::Value, APIError>)
        ensures
            final(self).config@ == login_result(
                old(self).config@,
                base@,
                username@,
                url@,
                status,
                body@,
                now as int,
            ).1,
            match r {
                Ok(doc) => login_result(
                    old(self).config@,
                    base@,
                    username@,
                    url@,
                    status,
                    body@,
                    now as int,
                ).0 == Ok::<serde_json::Value, ErrorView>(doc),
                Err(e) => login_result(
                    old(self).config@,
                    base@,
                    username@,
                    url@,
                    status,
                    body@,
                    now as int,
                ).0 == Err::<serde_json::Value, ErrorView>(e@),
            },
    {
        match read_response(url, status, body) {
            Err(e) => Err(e),
            Ok(pair) => match member_text(&pair.1, "token") {
                Some(token) => {
                    let session = new_session(token.as_str(), Some(username), now);
                    self.config.set_session(base.to_owned(), session);
                    Ok(pair.1)
                },
                None => Err(APIError::Other("Login response did not include a token".to_owned())),
            },
        }
    }

    /// Takes the answer to a renewal, received at the time `now`: where it holds
    /// a token, the session is replaced and the token handed out; else the
    /// session stays as it was.
    pub fn renew_response(
        &mut self,
        status: u16,
        body: &[u8],
        username: Option<&str>,
        now: i64,
    ) -> (r: Option<String>)
        ensures
            final(self).config@ == renew_result(
                old(self).config@,
                status,
                body@,
                opt_str_view(username),
                now as int,
            ).1,
            opt_view(r) == renew_result(
                old(self).config@,
                status,
                body@,
                opt_str_view(username),
                now as int,
            ).0,
    {
        if !status_is_success(status) {
            return None;
        }
        match parse(body) {
            None => None,
            Some(doc) => match member_text(&doc, "token") {
                Some(token) => {
                    let session = new_session(token.as_str(), username, now);
                    self.config.renew_session(session);
                    Some(token)
                },
                None => None,
            },
        }
    }
}

} // verus!
