//! Opaque caller-owned handshake material for connection transports.
//!
//! This module carries already-materialized material that a caller has resolved
//! above the connection layer. It does not access vaults, refresh tokens, choose
//! credentials, authorize usage, persist material, or log secret values.
use crate::text::{blank, chars_of, is_blank, join, joined, lemma_texts_push, texts};
use vstd::prelude::*;
use vstd::string::*;

verus! {

/// Errors raised while constructing header-based handshake material.
#[derive(Debug, Clone, PartialEq, Eq)]
pub enum AuthMaterialError {
    /// A header name was empty.
    EmptyHeaderName,
    /// A header name contains a byte that cannot appear in an HTTP field name.
    UnsafeHeaderName(String),
    /// A header value contains a control byte.
    UnsafeHeaderValue(String),
    /// A bearer token was empty after trimming.
    EmptyBearerToken,
    /// A bearer token contains a control byte.
    UnsafeBearerToken,
}

/// An [`AuthMaterialError`] with its texts as character sequences.
pub enum AuthErrorView {
    EmptyHeaderName,
    UnsafeHeaderName(Seq<char>),
    UnsafeHeaderValue(Seq<char>),
    EmptyBearerToken,
    UnsafeBearerToken,
}

impl View for AuthMaterialError {
    type V = AuthErrorView;

    open spec fn view(&self) -> AuthErrorView {
        match *self {
            AuthMaterialError::EmptyHeaderName => AuthErrorView::EmptyHeaderName,
            AuthMaterialError::UnsafeHeaderName(name) => AuthErrorView::UnsafeHeaderName(name@),
            AuthMaterialError::UnsafeHeaderValue(name) => AuthErrorView::UnsafeHeaderValue(name@),
            AuthMaterialError::EmptyBearerToken => AuthErrorView::EmptyBearerToken,
            AuthMaterialError::UnsafeBearerToken => AuthErrorView::UnsafeBearerToken,
        }
    }
}

/// A text in quotes, as the debug form of a string shows it.
pub uninterp spec fn quoted(s: Seq<char>) -> Seq<char>;

/// The debug form of a `str` in std. Stated here: it is a function of the text
/// alone. Which characters it escapes is left unsaid.
#[verifier::external_body]
pub(crate) fn quote(s: &str) -> (q: String)
    ensures
        q@ == quoted(s@),
{
    format!("{s:?}")
}

impl AuthErrorView {
    /// The text that a person reads of the error.
    pub open spec fn message(self) -> Seq<char> {
        match self {
            AuthErrorView::EmptyHeaderName => "header name must not be empty"@,
            AuthErrorView::UnsafeHeaderName(name) => "unsafe header name: "@ + quoted(name),
            AuthErrorView::UnsafeHeaderValue(name) => "unsafe header value for "@ + quoted(name),
            AuthErrorView::EmptyBearerToken => "bearer token must not be empty"@,
            AuthErrorView::UnsafeBearerToken => "bearer token contains a control byte"@,
        }
    }
}

impl AuthMaterialError {
    /// The text that a person reads of the error.
    pub fn message(&self) -> (text: String)
        ensures
            text@ == self@.message(),
    {
        match self {
            AuthMaterialError::EmptyHeaderName => "header name must not be empty".to_owned(),
            AuthMaterialError::UnsafeHeaderName(name) => {
                let name = quote(name.as_str());
                "unsafe header name: ".to_owned().concat(name.as_str())
            },
            AuthMaterialError::UnsafeHeaderValue(name) => {
                let name = quote(name.as_str());
                "unsafe header value for ".to_owned().concat(name.as_str())
            },
            AuthMaterialError::EmptyBearerToken => "bearer token must not be empty".to_owned(),
            AuthMaterialError::UnsafeBearerToken => "bearer token contains a control byte".to_owned(),
        }
    }
}

/// The ASCII control characters.
pub open spec fn is_control(c: char) -> bool {
    (c as u32) < 0x20 || c as u32 == 0x7F
}

/// A header field name: not empty, and without control characters, spaces and
/// colons.
pub open spec fn safe_name(name: Seq<char>) -> bool {
    &&& name.len() > 0
    &&& forall|i: int|
        0 <= i < name.len() ==> !is_control(#[trigger] name[i]) && name[i] != ' ' && name[i] != ':'
}

/// A header field value: without control characters.
pub open spec fn safe_value(value: Seq<char>) -> bool {
    forall|i: int| 0 <= i < value.len() ==> !is_control(#[trigger] value[i])
}

pub(crate) fn control(c: char) -> (is: bool)
    ensures
        is == is_control(c),
{
    let n: u32 = c as u32;
    n < 0x20 || n == 0x7F
}

/// Return whether `name` is a safe HTTP header field name.
pub fn header_name_is_safe(name: &str) -> (safe: bool)
    ensures
        safe == safe_name(name@),
{
    let chars = chars_of(name);
    let mut i: usize = 0;
    while i < chars.len()
        invariant
            i <= chars@.len(),
            chars@ == name@,
            forall|k: int|
                0 <= k < i ==> !is_control(#[trigger] name@[k]) && name@[k] != ' ' && name@[k]
                    != ':',
        decreases chars@.len() - i,
    {
        let c = chars[i];
        if control(c) || c == ' ' || c == ':' {
            assert(name@[i as int] == c);
            return false;
        }
        i += 1;
    }
    chars.len() > 0
}

/// Return whether `value` is safe to place in an HTTP header field value.
pub fn header_value_is_safe(value: &str) -> (safe: bool)
    ensures
        safe == safe_value(value@),
{
    let chars = chars_of(value);
    let mut i: usize = 0;
    while i < chars.len()
        invariant
            i <= chars@.len(),
            chars@ == value@,
            forall|k: int| 0 <= k < i ==> !is_control(#[trigger] value@[k]),
        decreases chars@.len() - i,
    {
        if control(chars[i]) {
            assert(is_control(value@[i as int]));
            return false;
        }
        i += 1;
    }
    true
}

/// Why a header is refused, if it is.
pub open spec fn header_fault(name: Seq<char>, value: Seq<char>) -> Option<AuthErrorView> {
    if name.len() == 0 {
        Some(AuthErrorView::EmptyHeaderName)
    } else if !safe_name(name) {
        Some(AuthErrorView::UnsafeHeaderName(name))
    } else if !safe_value(value) {
        Some(AuthErrorView::UnsafeHeaderValue(name))
    } else {
        None
    }
}

fn validate_header(name: &str, value: &str) -> (r: Result<(), AuthMaterialError>)
    ensures
        match r {
            Ok(()) => header_fault(name@, value@) is None,
            Err(error) => header_fault(name@, value@) == Some(error@),
        },
{
    if name.is_empty() {
        return Err(AuthMaterialError::EmptyHeaderName);
    }
    if !header_name_is_safe(name) {
        return Err(AuthMaterialError::UnsafeHeaderName(name.to_owned()));
    }
    if !header_value_is_safe(value) {
        return Err(AuthMaterialError::UnsafeHeaderValue(name.to_owned()));
    }
    Ok(())
}

/// One already-materialized header pair. It is safe by construction.
#[derive(PartialEq, Eq)]
pub struct HeaderPair {
    name: String,
    value: String,
}

/// A header by its name and value.
pub struct HeaderView {
    pub name: Seq<char>,
    pub value: Seq<char>,
}

impl View for HeaderPair {
    type V = HeaderView;

    closed spec fn view(&self) -> HeaderView {
        HeaderView { name: self.name@, value: self.value@ }
    }
}

impl Clone for HeaderPair {
    fn clone(&self) -> (pair: Self)
        ensures
            pair@ == self@,
    {
        proof {
            use_type_invariant(self);
        }
        HeaderPair { name: self.name.clone(), value: self.value.clone() }
    }
}

impl HeaderPair {
    #[verifier::type_invariant]
    spec fn is_safe(self) -> bool {
        header_fault(self.name@, self.value@) is None
    }

    /// Build a safe header pair.
    pub fn new(name: &str, value: &str) -> (r: Result<Self, AuthMaterialError>)
        ensures
            match r {
                Ok(pair) => header_fault(name@, value@) is None && pair@ == (HeaderView {
                    name: name@,
                    value: value@,
                }),
                Err(error) => header_fault(name@, value@) == Some(error@),
            },
    {
        match validate_header(name, value) {
            Ok(()) => Ok(HeaderPair { name: name.to_owned(), value: value.to_owned() }),
            Err(error) => Err(error),
        }
    }

    /// Header name. It is safe to send.
    pub fn name(&self) -> (name: &str)
        ensures
            name@ == self@.name,
            safe_name(name@),
    {
        proof {
            use_type_invariant(self);
        }
        self.name.as_str()
    }

    /// Header value. It is safe to send. This may be secret material; do not log
    /// it.
    pub fn value(&self) -> (value: &str)
        ensures
            value@ == self@.value,
            safe_value(value@),
    {
        proof {
            use_type_invariant(self);
        }
        self.value.as_str()
    }

    /// The debug form of the pair, which shows the name and hides the value.
    pub fn debug_text(&self) -> (text: String)
        ensures
            text@ == redacted_pair(self@.name),
    {
        let name = quote(self.name.as_str());
        "HeaderPair { name: ".to_owned().concat(name.as_str()).concat(
            ", value: \"<redacted>\" }",
        )
    }
}

/// The debug form of a pair with this name.
pub open spec fn redacted_pair(name: Seq<char>) -> Seq<char> {
    "HeaderPair { name: "@ + quoted(name) + ", value: \"<redacted>\" }"@
}

/// The views of a sequence of header pairs.
pub open spec fn header_views(pairs: Seq<HeaderPair>) -> Seq<HeaderView> {
    pairs.map_values(|pair: HeaderPair| pair@)
}

/// Header-based handshake material.
///
/// Values may contain bearer or API-token material. Construction rejects header
/// injection characters, and the debug form redacts values.
#[derive(PartialEq, Eq)]
pub struct HeaderAuthMaterial {
    headers: Vec<HeaderPair>,
}

impl View for HeaderAuthMaterial {
    type V = Seq<HeaderView>;

    closed spec fn view(&self) -> Seq<HeaderView> {
        header_views(self.headers@)
    }
}

/// The first fault among the first `n` headers.
pub open spec fn first_header_fault(headers: Seq<(Seq<char>, Seq<char>)>, n: nat) -> Option<
    AuthErrorView,
>
    decreases n,
{
    if n == 0 {
        None
    } else {
        match first_header_fault(headers, (n - 1) as nat) {
            Some(fault) => Some(fault),
            None => header_fault(headers[n - 1].0, headers[n - 1].1),
        }
    }
}

proof fn lemma_header_fault(headers: Seq<(Seq<char>, Seq<char>)>, n: nat)
    requires
        n <= headers.len(),
    ensures
        first_header_fault(headers, n) is Some ==> first_header_fault(headers, headers.len())
            == first_header_fault(headers, n),
    decreases headers.len() - n,
{
    if n < headers.len() {
        lemma_header_fault(headers, n + 1);
    }
}

/// The headers with these names and values.
pub open spec fn as_headers(pairs: Seq<(Seq<char>, Seq<char>)>) -> Seq<HeaderView> {
    pairs.map_values(|pair: (Seq<char>, Seq<char>)| HeaderView { name: pair.0, value: pair.1 })
}

/// The views of a sequence of names and values.
pub open spec fn pair_texts(pairs: Seq<(&str, &str)>) -> Seq<(Seq<char>, Seq<char>)> {
    pairs.map_values(|pair: (&str, &str)| (pair.0@, pair.1@))
}

/// The header that carries a bearer token.
pub open spec fn bearer_header(token: Seq<char>) -> HeaderView {
    HeaderView { name: "Authorization"@, value: "Bearer "@ + token }
}

impl HeaderAuthMaterial {
    /// No header material.
    pub fn none() -> (material: Self)
        ensures
            material@ == Seq::<HeaderView>::empty(),
    {
        let material = HeaderAuthMaterial { headers: Vec::new() };
        assert(material@ =~= Seq::empty());
        material
    }

    /// Build material from already-resolved headers.
    pub fn from_headers(headers: &[(&str, &str)]) -> (r: Result<Self, AuthMaterialError>)
        ensures
            ({
                let all = pair_texts(headers@);
                match r {
                    Ok(material) => first_header_fault(all, all.len()) is None && material@
                        == as_headers(all),
                    Err(error) => first_header_fault(all, all.len()) == Some(error@),
                }
            }),
    {
        let ghost all = pair_texts(headers@);
        let mut pairs: Vec<HeaderPair> = Vec::new();
        let mut i: usize = 0;
        assert(header_views(pairs@) =~= as_headers(all.take(0)));
        while i < headers.len()
            invariant
                i <= headers@.len(),
                all == pair_texts(headers@),
                first_header_fault(all, i as nat) is None,
                header_views(pairs@) == as_headers(all.take(i as int)),
            decreases headers@.len() - i,
        {
            let (name, value) = headers[i];
            let ghost before = pairs@;
            proof {
                assert(all[i as int] == (name@, value@));
                lemma_header_fault(all, (i + 1) as nat);
            }
            match HeaderPair::new(name, value) {
                Ok(pair) => {
                    pairs.push(pair);
                    assert(header_views(pairs@) =~= header_views(before).push(pair@));
                },
                Err(error) => return Err(error),
            }
            i += 1;
            assert(as_headers(all.take(i as int)) =~= as_headers(all.take(i - 1)).push(
                HeaderView { name: name@, value: value@ },
            ));
        }
        assert(all.take(all.len() as int) =~= all);
        Ok(HeaderAuthMaterial { headers: pairs })
    }

    /// Build `Authorization: Bearer <token>` material.
    pub fn bearer(token: &str) -> (r: Result<Self, AuthMaterialError>)
        ensures
            match r {
                Ok(material) => !is_blank(token@) && safe_value(token@) && material@
                    == seq![bearer_header(token@)],
                Err(error) => if is_blank(token@) {
                    error@ == AuthErrorView::EmptyBearerToken
                } else {
                    !safe_value(token@) && error@ == AuthErrorView::UnsafeBearerToken
                },
            },
    {
        if blank(token) {
            return Err(AuthMaterialError::EmptyBearerToken);
        }
        if !header_value_is_safe(token) {
            return Err(AuthMaterialError::UnsafeBearerToken);
        }
        let value = "Bearer ".to_owned().concat(token);
        proof {
            reveal_strlit("Authorization");
            reveal_strlit("Bearer ");
            assert(safe_name("Authorization"@));
            assert forall|i: int| 0 <= i < value@.len() implies !is_control(
                #[trigger] value@[i],
            ) by {
                if i >= "Bearer "@.len() {
                    assert(value@[i] == token@[i - "Bearer "@.len()]);
                }
            }
            assert(safe_value(value@));
        }
        match HeaderPair::new("Authorization", value.as_str()) {
            Ok(pair) => {
                let mut headers: Vec<HeaderPair> = Vec::new();
                headers.push(pair);
                assert(header_views(headers@) =~= seq![bearer_header(token@)]);
                Ok(HeaderAuthMaterial { headers })
            },
            Err(error) => Err(error),
        }
    }

    /// Add a header pair.
    pub fn with_header(self, name: &str, value: &str) -> (r: Result<Self, AuthMaterialError>)
        ensures
            match r {
                Ok(material) => header_fault(name@, value@) is None && material@ == self@.push(
                    HeaderView { name: name@, value: value@ },
                ),
                Err(error) => header_fault(name@, value@) == Some(error@),
            },
    {
        match HeaderPair::new(name, value) {
            Ok(pair) => {
                let mut headers = self.headers;
                headers.push(pair);
                assert(header_views(headers@) =~= self@.push(pair@));
                Ok(HeaderAuthMaterial { headers })
            },
            Err(error) => Err(error),
        }
    }

    /// Whether this material carries no headers.
    pub fn is_empty(&self) -> (empty: bool)
        ensures
            empty == (self@.len() == 0),
    {
        self.headers.len() == 0
    }

    /// Borrow header pairs.
    pub fn pairs(&self) -> (pairs: &[HeaderPair])
        ensures
            header_views(pairs@) == self@,
    {
        self.headers.as_slice()
    }

    /// Clone header pairs into transport-ready tuples. Every one of them is safe
    /// to send.
    pub fn headers(&self) -> (headers: Vec<(String, String)>)
        ensures
            headers@.len() == self@.len(),
            forall|i: int|
                0 <= i < headers@.len() ==> (#[trigger] headers@[i]).0@ == self@[i].name
                    && headers@[i].1@ == self@[i].value && safe_name(headers@[i].0@) && safe_value(
                    headers@[i].1@,
                ),
    {
        let mut headers: Vec<(String, String)> = Vec::new();
        let mut i: usize = 0;
        while i < self.headers.len()
            invariant
                i <= self.headers@.len(),
                headers@.len() == i,
                self@ == header_views(self.headers@),
                forall|k: int|
                    0 <= k < i ==> (#[trigger] headers@[k]).0@ == self@[k].name
                        && headers@[k].1@ == self@[k].value && safe_name(headers@[k].0@)
                        && safe_value(headers@[k].1@),
            decreases self.headers@.len() - i,
        {
            let pair = &self.headers[i];
            assert(self@[i as int] == pair@);
            headers.push((pair.name().to_owned(), pair.value().to_owned()));
            i += 1;
        }
        headers
    }

    /// The debug form of the material, which shows the names and hides the values.
    pub fn debug_text(&self) -> (text: String)
        ensures
            text@ == redacted_material(names_of(self@)),
    {
        broadcast use lemma_texts_push;

        let ghost wanted = redacted_pairs(names_of(self@));
        let mut parts: Vec<String> = Vec::new();
        let mut i: usize = 0;
        assert(texts(parts@) =~= wanted.take(0));
        while i < self.headers.len()
            invariant
                i <= self.headers@.len(),
                self@ == header_views(self.headers@),
                wanted == redacted_pairs(names_of(self@)),
                texts(parts@) == wanted.take(i as int),
            decreases self.headers@.len() - i,
        {
            let ghost before = parts@;
            let part = self.headers[i].debug_text();
            assert(self@[i as int] == self.headers@[i as int]@);
            assert(part@ == wanted[i as int]);
            parts.push(part);
            i += 1;
            assert(wanted.take(i as int) =~= wanted.take(i - 1).push(wanted[i - 1]));
            assert(texts(parts@) =~= texts(before).push(part@));
        }
        assert(wanted.take(i as int) =~= wanted);
        let list = join(&parts, ", ");
        "HeaderAuthMaterial { headers: [".to_owned().concat(list.as_str()).concat("] }")
    }
}

impl Clone for HeaderAuthMaterial {
    fn clone(&self) -> (material: Self)
        ensures
            material@ == self@,
    {
        let mut headers: Vec<HeaderPair> = Vec::new();
        let mut i: usize = 0;
        while i < self.headers.len()
            invariant
                i <= self.headers@.len(),
                headers@.len() == i,
                forall|k: int| 0 <= k < i ==> (#[trigger] headers@[k])@ == self.headers@[k]@,
            decreases self.headers@.len() - i,
        {
            headers.push(self.headers[i].clone());
            i += 1;
        }
        let material = HeaderAuthMaterial { headers };
        assert(material@ =~= self@);
        material
    }
}

impl Default for HeaderAuthMaterial {
    fn default() -> (material: Self)
        ensures
            material@ == Seq::<HeaderView>::empty(),
    {
        HeaderAuthMaterial::none()
    }
}

/// The names of headers.
pub open spec fn names_of(headers: Seq<HeaderView>) -> Seq<Seq<char>> {
    headers.map_values(|header: HeaderView| header.name)
}

/// The debug forms of pairs with these names.
pub open spec fn redacted_pairs(names: Seq<Seq<char>>) -> Seq<Seq<char>> {
    names.map_values(|name: Seq<char>| redacted_pair(name))
}

/// The debug form of material whose headers have these names: it speaks of no
/// value.
pub open spec fn redacted_material(names: Seq<Seq<char>>) -> Seq<char> {
    "HeaderAuthMaterial { headers: ["@ + joined(redacted_pairs(names), ", "@) + "] }"@
}

/// The control characters are those below the space, and one more.
pub(crate) proof fn lemma_control(c: char)
    ensures
        is_control(c) == (c < ' ' || c as int == 127),
{
}

/// A header is accepted exactly if its name is not empty, neither holds a control
/// character, and the name holds no space and no colon. So no accepted header holds a
/// line break.
pub proof fn accepted_headers_hold_no_line_break(name: Seq<char>, value: Seq<char>)
    ensures
        header_fault(name, value) is None <==> {
            &&& name.len() > 0
            &&& forall|i: int|
                0 <= i < name.len() ==> #[trigger] name[i] > ' ' && name[i] as int != 127
                    && name[i] != ':'
            &&& forall|i: int|
                0 <= i < value.len() ==> #[trigger] value[i] >= ' ' && value[i] as int != 127
        },
        header_fault(name, value) is None ==> !name.contains('\n') && !name.contains('\r')
            && !value.contains('\n') && !value.contains('\r'),
{
    assert forall|c: char| #[trigger] is_control(c) == (c < ' ' || c as int == 127) by {
        lemma_control(c);
    }
    if safe_name(name) {
        assert forall|i: int| 0 <= i < name.len() implies #[trigger] name[i] > ' ' && name[i] as int
            != 127 && name[i] != ':' by {
            assert(!is_control(name[i]));
            lemma_control(name[i]);
        }
    }
    if safe_value(value) {
        assert forall|i: int| 0 <= i < value.len() implies #[trigger] value[i] >= ' '
            && value[i] as int != 127 by {
            assert(!is_control(value[i]));
            lemma_control(value[i]);
        }
    }
}

} // verus!
