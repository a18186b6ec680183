//! Who may ask: the name that a request gives this server, and the token it
//! presents.

use vstd::prelude::*;
use crate::chars::{
    cat3, cat4, dec, decimal, from_range, group_views, same, to_chars, white_space,
};
use crate::numbers::{law_a_number_reads_back, number_of, parse_number};
use crate::serve::percent::{
    constant_time_eq, escaped, hex_text, is_hex, lemma_hex_text, percent_decode, percent_encode,
    to_hex, unescaped,
};
use crate::session::restore::parent_view;
use crate::words::{
    law_trimming_takes_white_space_alone, search, split_once, stands_at, starts, strip_prefix,
    trim, trimmed,
};

verus! {

broadcast use group_views;

// ---- Names ----

/// Where this server answers: whether the address is a loopback one, and its port.
#[derive(Clone, Copy, PartialEq, Eq, Structural, Debug)]
pub struct Bind {
    pub loopback: bool,
    pub port: u16,
}

/// An ASCII letter in lower case. Every other character stays.
pub open spec fn ascii_lower(c: char) -> char {
    if 'A' <= c <= 'Z' {
        (c as u32 + 32) as char
    } else {
        c
    }
}

/// Whether two texts differ only in the case of ASCII letters.
pub open spec fn same_letters(a: Seq<char>, b: Seq<char>) -> bool {
    a.len() == b.len() && forall|i: int|
        0 <= i < a.len() ==> ascii_lower(#[trigger] a[i]) == ascii_lower(b[i])
}

fn lower_ascii(c: char) -> (r: char)
    ensures
        r == ascii_lower(c),
{
    if 'A' <= c && c <= 'Z' {
        (c as u8 + 32) as char
    } else {
        c
    }
}

pub fn eq_ignore_case(a: &str, b: &str) -> (r: bool)
    ensures
        r == same_letters(a@, b@),
{
    let x: Vec<char> = to_chars(a);
    let y: Vec<char> = to_chars(b);
    if x.len() != y.len() {
        return false;
    }
    let mut i: usize = 0;
    while i < x.len()
        invariant
            i <= x@.len(),
            x@.len() == y@.len(),
            x@ == a@,
            y@ == b@,
            forall|k: int| 0 <= k < i ==> ascii_lower(#[trigger] x@[k]) == ascii_lower(y@[k]),
        decreases x@.len() - i,
    {
        if lower_ascii(x[i]) != lower_ascii(y[i]) {
            assert(ascii_lower(a@[i as int]) != ascii_lower(b@[i as int]));
            return false;
        }
        i += 1;
    }
    true
}

/// The last colon before `n`, or -1.
pub open spec fn last_colon(s: Seq<char>, n: int) -> int
    decreases n,
{
    if n <= 0 || n > s.len() {
        -1
    } else if s[n - 1] == ':' {
        n - 1
    } else {
        last_colon(s, n - 1)
    }
}

/// The first closing bracket from `i` on, or the length.
pub open spec fn bracket_from(s: Seq<char>, i: int) -> int {
    crate::chars::find_from(s, ']', i)
}

/// A port, where it is one.
pub open spec fn port_of(s: Seq<char>) -> Option<u16> {
    match number_of(s, u16::MAX as nat) {
        Some(n) => Some(n as u16),
        None => None,
    }
}

/// A name and a port, or a name alone. An address with colons of its own stands
/// in brackets.
pub open spec fn host_parts(host: Seq<char>) -> Option<(Seq<char>, Option<u16>)> {
    let s = trimmed(host);
    if s.len() == 0 {
        None
    } else if s[0] == '[' {
        let close = bracket_from(s, 1);
        if close >= s.len() {
            None
        } else {
            let name = s.subrange(1, close);
            let rest = s.skip(close + 1);
            if rest.len() == 0 {
                Some((name, None))
            } else if rest[0] != ':' {
                None
            } else {
                match port_of(rest.skip(1)) {
                    Some(port) => Some((name, Some(port))),
                    None => None,
                }
            }
        }
    } else {
        let colon = last_colon(s, s.len() as int);
        if colon < 0 {
            Some((s, None))
        } else {
            match port_of(s.skip(colon + 1)) {
                Some(port) => Some((s.take(colon), Some(port))),
                None => None,
            }
        }
    }
}

fn port(text: &str) -> (r: Option<u16>)
    ensures
        r == port_of(text@),
{
    match parse_number(text, 65535) {
        Some(n) => Some(n as u16),
        None => None,
    }
}

proof fn lemma_last_colon(s: Seq<char>, n: int)
    requires
        0 <= n <= s.len(),
    ensures
        -1 <= last_colon(s, n) < n || n == 0,
    decreases n,
{
    if n > 0 && s[n - 1] != ':' {
        lemma_last_colon(s, n - 1);
    }
}

pub fn split_host_port(host: &str) -> (r: Option<(String, Option<u16>)>)
    ensures
        match r {
            Some((name, port)) => host_parts(host@) == Some((name@, port)),
            None => host_parts(host@) is None,
        },
{
    let whole: String = trim(host);
    let s: Vec<char> = to_chars(whole.as_str());
    let n: usize = s.len();
    if n == 0 {
        return None;
    }
    if s[0] == '[' {
        let close: usize = crate::chars::find_char(&s, ']', 1);
        if close >= n {
            return None;
        }
        let name: String = from_range(&s, 1, close);
        assert(s@.skip(close + 1) =~= s@.subrange(close + 1, n as int));
        if close + 1 == n {
            return Some((name, None));
        }
        if s[close + 1] != ':' {
            return None;
        }
        assert(s@.skip(close + 1).skip(1) =~= s@.subrange(close + 2, n as int));
        return match port(from_range(&s, close + 2, n).as_str()) {
            Some(port) => Some((name, Some(port))),
            None => None,
        };
    }
    let mut at: usize = n;
    while at > 0 && s[at - 1] != ':'
        invariant
            at <= n,
            n == s@.len(),
            last_colon(s@, n as int) == last_colon(s@, at as int),
        decreases at,
    {
        at -= 1;
    }
    if at == 0 {
        return Some((whole, None));
    }
    assert(s@.skip(at as int) =~= s@.subrange(at as int, n as int));
    assert(s@.take(at - 1) =~= s@.subrange(0, at - 1));
    match port(from_range(&s, at, n).as_str()) {
        Some(port) => Some((from_range(&s, 0, at - 1), Some(port))),
        None => None,
    }
}

/// Whether a request may name this server so: by `localhost` or by an address,
/// and with this server's port if with any. `literal` says whether the name is an
/// address. A request that gives no name is a local one.
pub open spec fn may_name(host: Option<Seq<char>>, literal: bool, bind: Bind) -> bool {
    match host {
        None => bind.loopback,
        Some(host) => match host_parts(host) {
            None => false,
            Some((name, port)) => {
                &&& port is Some ==> port->0 == bind.port
                &&& same_letters(name, "localhost"@) || literal
            },
        },
    }
}

pub fn host_allowed(host: Option<&str>, literal: bool, bind: &Bind) -> (r: bool)
    ensures
        r == may_name(parent_view(host), literal, *bind),
{
    match host {
        None => bind.loopback,
        Some(host) => match split_host_port(host) {
            None => false,
            Some((name, port)) => {
                if let Some(port) = port {
                    if port != bind.port {
                        return false;
                    }
                }
                eq_ignore_case(name.as_str(), "localhost") || literal
            },
        },
    }
}

/// What follows the scheme of an origin.
pub open spec fn authority_of(origin: Seq<char>) -> Option<Seq<char>> {
    if starts(origin, "http://"@) {
        Some(origin.skip("http://"@.len() as int))
    } else if starts(origin, "https://"@) {
        Some(origin.skip("https://"@.len() as int))
    } else {
        None
    }
}

pub fn authority(origin: &str) -> (r: Option<String>)
    ensures
        match r {
            Some(rest) => authority_of(origin@) == Some(rest@),
            None => authority_of(origin@) is None,
        },
{
    match strip_prefix(origin, "http://") {
        Some(rest) => Some(rest),
        None => strip_prefix(origin, "https://"),
    }
}

/// Whether an origin may name this server.
pub open spec fn may_come_from(origin: Seq<char>, literal: bool, bind: Bind) -> bool {
    match authority_of(origin) {
        Some(host) => may_name(Some(host), literal, bind),
        None => false,
    }
}

pub fn origin_allowed(origin: &str, literal: bool, bind: &Bind) -> (r: bool)
    ensures
        r == may_come_from(origin@, literal, *bind),
{
    match authority(origin) {
        Some(host) => host_allowed(Some(host.as_str()), literal, bind),
        None => false,
    }
}

/// What the names that a request gives amount to.
#[derive(Clone, Copy, PartialEq, Eq, Structural, Debug)]
pub enum NameCheck {
    Known,
    UnknownHost,
    UnknownOrigin,
}

/// The host is looked at first. An origin, where there is one, has to pass too.
pub open spec fn names_checked(
    host: Option<Seq<char>>,
    host_literal: bool,
    origin: Option<Seq<char>>,
    origin_literal: bool,
    bind: Bind,
) -> NameCheck {
    if !may_name(host, host_literal, bind) {
        NameCheck::UnknownHost
    } else if origin is Some && !may_come_from(origin->0, origin_literal, bind) {
        NameCheck::UnknownOrigin
    } else {
        NameCheck::Known
    }
}

pub fn require_known_host(
    host: Option<&str>,
    host_literal: bool,
    origin: Option<&str>,
    origin_literal: bool,
    bind: &Bind,
) -> (r: NameCheck)
    ensures
        r == names_checked(
            parent_view(host),
            host_literal,
            parent_view(origin),
            origin_literal,
            *bind,
        ),
{
    if !host_allowed(host, host_literal, bind) {
        return NameCheck::UnknownHost;
    }
    if let Some(origin) = origin {
        if !origin_allowed(origin, origin_literal, bind) {
            return NameCheck::UnknownOrigin;
        }
    }
    NameCheck::Known
}

/// What a name that is not this server's is answered. `quoted` is the name in
/// quotes, `address` what this server answers to.
pub open spec fn refusal_text(
    header: Seq<char>,
    quoted: Seq<char>,
    address: Seq<char>,
    port: u16,
) -> Seq<char> {
    header + " "@ + quoted + " is not this server's address: ilar serve answers to "@ + (address
        + " (an IP literal or localhost, on port "@ + dec(port as nat)
        + ") and refuses any other name, because a name is what a DNS-rebinding attack has to use. Open the URL ilar serve printed."@)
}

pub fn refuse_name(header: &str, quoted: &str, address: &str, port: u16) -> (r: String)
    ensures
        r@ == refusal_text(header@, quoted@, address@, port),
{
    let mut text: String = cat4(
        header,
        " ",
        quoted,
        " is not this server's address: ilar serve answers to ",
    );
    let number: String = decimal(port as u64);
    let rest: String = cat4(
        address,
        " (an IP literal or localhost, on port ",
        number.as_str(),
        ") and refuses any other name, because a name is what a DNS-rebinding attack has to use. Open the URL ilar serve printed.",
    );
    text.push_str(rest.as_str());
    text
}

/// A name that is neither `localhost` nor an address is never this server's,
/// whatever its port, as host or as origin.
pub proof fn law_a_foreign_name_is_refused(host: Seq<char>, bind: Bind)
    requires
        host_parts(host) is Some ==> !same_letters((host_parts(host)->0).0, "localhost"@),
    ensures
        !may_name(Some(host), false, bind),
        names_checked(Some(host), false, None, false, bind) == NameCheck::UnknownHost,
{
}

/// A port that is not this server's is refused with every name.
pub proof fn law_another_port_is_refused(host: Seq<char>, literal: bool, bind: Bind)
    requires
        host_parts(host) is Some,
        (host_parts(host)->0).1 is Some,
        (host_parts(host)->0).1->0 != bind.port,
    ensures
        !may_name(Some(host), literal, bind),
{
}

// ---- Tokens ----

/// The token that a bind requires.
#[derive(Debug, PartialEq, Eq)]
pub enum TokenRule {
    /// This one, which was asked for.
    Pinned(String),
    /// None.
    Open,
    /// One of its own making.
    Generated,
}

/// A token that is set and not blank is required even of a loopback bind. Without
/// one, every other bind makes its own.
pub open spec fn rule_is(rule: TokenRule, loopback: bool, configured: Option<Seq<char>>) -> bool {
    let pinned = configured is Some && trimmed(configured->0).len() > 0;
    match rule {
        TokenRule::Pinned(token) => pinned && token@ == trimmed(configured->0),
        TokenRule::Open => !pinned && loopback,
        TokenRule::Generated => !pinned && !loopback,
    }
}

pub fn token_rule(loopback: bool, configured: Option<&str>) -> (r: TokenRule)
    ensures
        rule_is(r, loopback, parent_view(configured)),
{
    if let Some(configured) = configured {
        let token: String = trim(configured);
        if !token.as_str().is_empty() {
            return TokenRule::Pinned(token);
        }
    }
    if loopback {
        TokenRule::Open
    } else {
        TokenRule::Generated
    }
}

/// `getrandom::fill`: whether the operating system had randomness to fill the bytes
/// with. There are as many of them as before; what they are is left to chance.
#[verifier::external_body]
fn fill_random(bytes: &mut Vec<u8>) -> (r: bool)
    ensures
        final(bytes)@.len() == old(bytes)@.len(),
{
    getrandom::fill(bytes).is_ok()
}

/// Whether a text is 256 bits in hexadecimal.
pub open spec fn token_shaped(s: Seq<char>) -> bool {
    s.len() == 64 && forall|i: int| 0 <= i < s.len() ==> is_hex(#[trigger] s[i])
}

/// A token: 32 bytes in hexadecimal.
pub fn token_of(bytes: &Vec<u8>) -> (r: String)
    ensures
        r@ == hex_text(bytes@),
        bytes@.len() == 32 ==> token_shaped(r@),
{
    proof {
        lemma_hex_text(bytes@);
    }
    to_hex(bytes)
}

/// A new token, or nothing where there is no randomness to make it of.
pub fn generate_token() -> (r: Option<String>)
    ensures
        r is Some ==> token_shaped(r->0@),
{
    let mut bytes: Vec<u8> = vec![0u8; 32];
    if fill_random(&mut bytes) {
        Some(token_of(&bytes))
    } else {
        None
    }
}

/// The token that this bind requires, if any. It fails only where a token has to
/// be made and cannot be.
pub fn required_token(loopback: bool, configured: Option<&str>) -> (r: Result<Option<String>, ()>)
    ensures
        match r {
            Ok(Some(token)) => rule_is(TokenRule::Pinned(token), loopback, parent_view(configured))
                || (rule_is(TokenRule::Generated, loopback, parent_view(configured))
                && token_shaped(token@)),
            Ok(None) => rule_is(TokenRule::Open, loopback, parent_view(configured)),
            Err(_) => rule_is(TokenRule::Generated, loopback, parent_view(configured)),
        },
{
    match token_rule(loopback, configured) {
        TokenRule::Pinned(token) => Ok(Some(token)),
        TokenRule::Open => Ok(None),
        TokenRule::Generated => match generate_token() {
            Some(token) => Ok(Some(token)),
            None => Err(()),
        },
    }
}

/// The URL to print. The token rides in the fragment, which is never sent.
pub open spec fn printed_url(address: Seq<char>, token: Option<Seq<char>>) -> Seq<char> {
    match token {
        Some(token) => "http://"@ + address + "/#token="@ + escaped(token),
        None => "http://"@ + address + "/"@,
    }
}

pub fn url_for(address: &str, token: Option<&str>) -> (r: String)
    ensures
        r@ == printed_url(address@, parent_view(token)),
{
    match token {
        Some(token) => {
            let encoded: String = percent_encode(token);
            cat4("http://", address, "/#token=", encoded.as_str())
        },
        None => cat3("http://", address, "/"),
    }
}

/// The token of an `Authorization` header: what follows the scheme `bearer`.
pub open spec fn bearer_of(value: Option<Seq<char>>) -> Option<Seq<char>> {
    match value {
        None => None,
        Some(value) => {
            let at = search(value, " "@, 0);
            if at >= 0 && same_letters(value.take(at), "bearer"@) {
                Some(trimmed(value.skip(at + " "@.len())))
            } else {
                None
            }
        },
    }
}

pub fn bearer(authorization: Option<&str>) -> (r: Option<String>)
    ensures
        match r {
            Some(token) => bearer_of(parent_view(authorization)) == Some(token@),
            None => bearer_of(parent_view(authorization)) is None,
        },
{
    match authorization {
        None => None,
        Some(value) => match split_once(value, " ") {
            Some((scheme, token)) => if eq_ignore_case(scheme.as_str(), "bearer") {
                Some(trim(token.as_str()))
            } else {
                None
            },
            None => None,
        },
    }
}

/// The token of a query, from `i` on: the first pair that names it.
pub open spec fn token_from(query: Seq<char>, i: int) -> Option<Seq<char>>
    decreases query.len() - i,
{
    if i < 0 || i > query.len() {
        None
    } else {
        let end = crate::chars::find_from(query, '&', i);
        let pair = query.subrange(i, end);
        if starts(pair, "token="@) {
            Some(unescaped(pair.skip("token="@.len() as int)))
        } else if end < i || end >= query.len() {
            None
        } else {
            token_from(query, end + 1)
        }
    }
}

pub open spec fn query_token_of(query: Option<Seq<char>>) -> Option<Seq<char>> {
    match query {
        Some(query) => token_from(query, 0),
        None => None,
    }
}

pub fn query_token(query: Option<&str>) -> (r: Option<String>)
    ensures
        match r {
            Some(token) => query_token_of(parent_view(query)) == Some(token@),
            None => query_token_of(parent_view(query)) is None,
        },
{
    let text: &str = match query {
        Some(text) => text,
        None => return None,
    };
    let v: Vec<char> = to_chars(text);
    let n: usize = v.len();
    let mut i: usize = 0;
    loop
        invariant
            i <= n,
            n == v@.len(),
            v@ == text@,
            parent_view(query) == Some(text@),
            token_from(text@, 0) == token_from(text@, i as int),
        decreases n + 1 - i,
    {
        let end: usize = crate::chars::find_char(&v, '&', i);
        let pair: String = from_range(&v, i, end);
        if let Some(token) = strip_prefix(pair.as_str(), "token=") {
            return Some(percent_decode(token.as_str()));
        }
        if end >= n {
            return None;
        }
        i = end + 1;
    }
}

/// What is served without a token: the page that reads it from the fragment.
pub open spec fn public_path(path: Seq<char>) -> bool {
    path == "/"@ || path == "/app.css"@ || path == "/app.js"@ || path
        == "/vendor/preact.module.js"@ || path == "/vendor/hooks.module.js"@ || path
        == "/vendor/htm.module.js"@
}

fn is_public(path: &str) -> (r: bool)
    ensures
        r == public_path(path@),
{
    same(path, "/") || same(path, "/app.css") || same(path, "/app.js") || same(
        path,
        "/vendor/preact.module.js",
    ) || same(path, "/vendor/hooks.module.js") || same(path, "/vendor/htm.module.js")
}

/// Whether a request is let in: no token is required, what it asks for is public,
/// or it presents the token. The header speaks first, and the query only where
/// the header presents nothing.
pub open spec fn let_in(
    expected: Option<Seq<char>>,
    path: Seq<char>,
    authorization: Option<Seq<char>>,
    query: Option<Seq<char>>,
) -> bool {
    match expected {
        None => true,
        Some(expected) => {
            let presented = match bearer_of(authorization) {
                Some(token) => Some(token),
                None => query_token_of(query),
            };
            public_path(path) || presented == Some(expected)
        },
    }
}

pub fn require_token(
    expected: Option<&str>,
    path: &str,
    authorization: Option<&str>,
    query: Option<&str>,
) -> (r: bool)
    ensures
        r == let_in(parent_view(expected), path@, parent_view(authorization), parent_view(query)),
{
    let expected: &str = match expected {
        None => return true,
        Some(expected) => expected,
    };
    if is_public(path) {
        return true;
    }
    let presented: Option<String> = match bearer(authorization) {
        Some(token) => Some(token),
        None => query_token(query),
    };
    match presented {
        Some(token) => constant_time_eq(token.as_str(), expected),
        None => false,
    }
}

/// Without the token nothing but the page is served, whatever the path, and with
/// it everything is.
pub proof fn law_nothing_private_without_the_token(
    expected: Seq<char>,
    path: Seq<char>,
    authorization: Option<Seq<char>>,
    query: Option<Seq<char>>,
)
    ensures
        !public_path(path) && bearer_of(authorization) is None && query_token_of(query) is None
            ==> !let_in(Some(expected), path, authorization, query),
        !public_path(path) && bearer_of(authorization) is Some && bearer_of(authorization)->0
            != expected ==> !let_in(Some(expected), path, authorization, query),
        bearer_of(authorization) == Some(expected) ==> let_in(
            Some(expected),
            path,
            authorization,
            query,
        ),
{
}

/// The token that a URL carries is the one that a query presents.
pub proof fn law_a_pinned_token_survives_the_url(token: Seq<char>)
    ensures
        query_token_of(Some("token="@ + escaped(token))) == Some(token),
{
    crate::serve::percent::law_escaping_loses_nothing(token);
    reveal_strlit("token=");
    let query = "token="@ + escaped(token);
    crate::serve::percent::lemma_escaped_has_no_ampersand(token);
    lemma_no_ampersand(query, 0);
    assert(query.subrange(0, query.len() as int) =~= query);
    assert(query.subrange(0, "token="@.len() as int) =~= "token="@);
    assert(query.skip("token="@.len() as int) =~= escaped(token));
}

proof fn lemma_no_ampersand(s: Seq<char>, i: int)
    requires
        0 <= i <= s.len(),
        forall|k: int| 0 <= k < s.len() ==> s[k] != '&',
    ensures
        crate::chars::find_from(s, '&', i) == s.len(),
    decreases s.len() - i,
{
    if i < s.len() {
        lemma_no_ampersand(s, i + 1);
    }
}

proof fn lemma_colon_found(s: Seq<char>, n: int, at: int)
    requires
        -1 <= at,
        0 <= n <= s.len(),
        at < n || n == 0,
        at >= 0 ==> at < n && s[at] == ':',
        forall|i: int| at < i < n ==> s[i] != ':',
    ensures
        last_colon(s, n) == at,
    decreases n,
{
    if n - 1 > at {
        lemma_colon_found(s, n - 1, at);
    }
}

/// A host is a name, or a name, a colon and a port.
pub proof fn law_a_host_is_a_name_and_a_port(name: Seq<char>, port: u16)
    requires
        name.len() > 0,
        name[0] != '[',
        forall|i: int| 0 <= i < name.len() ==> name[i] != ':' && !white_space(name[i]),
    ensures
        host_parts(name) == Some((name, None::<u16>)),
        host_parts(name + seq![':'] + dec(port as nat)) == Some((name, Some(port))),
{
    let none = Seq::<char>::empty();
    let whole = name + seq![':'] + dec(port as nat);
    lemma_digits_of(port as nat);
    law_trimming_takes_white_space_alone(none, name, none);
    assert(none + name + none =~= name);
    law_trimming_takes_white_space_alone(none, whole, none);
    assert(none + whole + none =~= whole);
    lemma_colon_found(name, name.len() as int, -1);
    lemma_colon_found(whole, whole.len() as int, name.len() as int);
    assert(whole.skip(name.len() as int + 1) =~= dec(port as nat));
    assert(whole.take(name.len() as int) =~= name);
    law_a_number_reads_back(port as nat, u16::MAX as nat);
}

proof fn lemma_digits_of(n: nat)
    ensures
        dec(n).len() > 0,
        forall|i: int| 0 <= i < dec(n).len() ==> '0' <= #[trigger] dec(n)[i] <= '9',
    decreases n,
{
    if n >= 10 {
        lemma_digits_of(n / 10);
    }
}

/// This server answers to its own name, with its port or without one, however the
/// letters are written, and to an address; another origin has to be such a name too.
pub proof fn law_its_own_name_is_known(name: Seq<char>, literal: bool, bind: Bind)
    requires
        name.len() > 0,
        name[0] != '[',
        forall|i: int| 0 <= i < name.len() ==> name[i] != ':' && !white_space(name[i]),
        same_letters(name, "localhost"@) || literal,
    ensures
        names_checked(Some(name), literal, None, false, bind) == NameCheck::Known,
        names_checked(
            Some(name + seq![':'] + dec(bind.port as nat)),
            literal,
            None,
            false,
            bind,
        ) == NameCheck::Known,
        names_checked(
            Some(name),
            literal,
            Some("http://"@ + (name + seq![':'] + dec(bind.port as nat))),
            literal,
            bind,
        ) == NameCheck::Known,
        names_checked(None, literal, None, false, bind) == (if bind.loopback {
            NameCheck::Known
        } else {
            NameCheck::UnknownHost
        }),
{
    law_a_host_is_a_name_and_a_port(name, bind.port);
    reveal_strlit("http://");
    let host = name + seq![':'] + dec(bind.port as nat);
    let origin = "http://"@ + host;
    assert(origin.subrange(0, 7) =~= "http://"@);
    assert(origin.skip(7) =~= host);
}

/// Without a token that was set, a server that is reached from elsewhere makes one, and
/// a local one is open. A token that was set is required of either.
pub proof fn law_only_a_local_server_is_open(rule: TokenRule, loopback: bool, set: Option<Seq<char>>)
    requires
        rule_is(rule, loopback, set),
    ensures
        rule is Open ==> loopback && (set is Some ==> trimmed(set->0).len() == 0),
        set is None && !loopback ==> rule is Generated,
        set is None && loopback ==> rule is Open,
        set is Some && trimmed(set->0).len() > 0 ==> rule is Pinned && rule->Pinned_0@
            == trimmed(set->0),
{
}

/// A token is presented behind the word bearer, or in a query where no header
/// presents one.
pub proof fn law_a_presented_token_lets_in(token: Seq<char>, path: Seq<char>)
    requires
        token.len() > 0,
        !white_space(token[0]),
        !white_space(token.last()),
    ensures
        bearer_of(Some("Bearer "@ + token)) == Some(token),
        let_in(Some(token), path, Some("Bearer "@ + token), None),
        let_in(Some(token), path, None, Some("token="@ + escaped(token))),
{
    reveal_strlit("Bearer ");
    reveal_strlit("bearer");
    reveal_strlit(" ");
    let value = "Bearer "@ + token;
    let blank = " "@;
    assert forall|i: int| 0 <= i < 6 implies !(#[trigger] stands_at(value, blank, i)) by {
        if stands_at(value, blank, i) {
            assert(value.subrange(i, i + 1)[0] == blank[0]);
        }
    }
    assert(value.subrange(6, 7) =~= blank);
    assert(stands_at(value, blank, 6));
    lemma_first_place(value, blank, 0, 6);
    assert(same_letters(value.take(6), "bearer"@)) by {
        assert(ascii_lower('B') == 'b');
    }
    assert(value.skip(7) =~= token);
    let none = Seq::<char>::empty();
    law_trimming_takes_white_space_alone(none, token, none);
    assert(none + token + none =~= token);
    law_a_pinned_token_survives_the_url(token);
}

proof fn lemma_first_place(s: Seq<char>, part: Seq<char>, i: int, at: int)
    requires
        0 <= i <= at,
        stands_at(s, part, at),
        forall|k: int| i <= k < at ==> !(#[trigger] stands_at(s, part, k)),
    ensures
        search(s, part, i) == at,
    decreases at - i,
{
    if i < at {
        assert(!stands_at(s, part, i));
        lemma_first_place(s, part, i + 1, at);
    }
}

/// Nothing that a session holds is public.
pub proof fn law_what_is_served_of_sessions_is_private(path: Seq<char>)
    requires
        path.len() >= 4,
        path[0] == '/',
        path[1] == 'a',
        path[2] == 'p',
        path[3] == 'i',
    ensures
        !public_path(path),
{
    reveal_strlit("/");
    reveal_strlit("/app.css");
    reveal_strlit("/app.js");
    reveal_strlit("/vendor/preact.module.js");
    reveal_strlit("/vendor/hooks.module.js");
    reveal_strlit("/vendor/htm.module.js");
    assert("/app.css"@[3] == 'p');
    assert("/app.js"@[3] == 'p');
    assert("/vendor/preact.module.js"@[1] == 'v');
    assert("/vendor/hooks.module.js"@[1] == 'v');
    assert("/vendor/htm.module.js"@[1] == 'v');
}

} // verus!
