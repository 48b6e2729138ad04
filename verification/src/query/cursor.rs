//! Opaque keyset cursors.
//!
//! A cursor carries the sort-key values of the last row of a page. The token
//! itself is opaque: JSON in base64.
use crate::api_contract::numeral::{equal_numbers, finite_text, is_decimal, unsigned, Numeral};
use crate::query::fragment::{BuildErrorView, QueryBuildError};
use crate::text::same_text;
use crate::text_map::{entry_map, key_at, sorted, TextMap};
use base64::engine::general_purpose::URL_SAFE_NO_PAD;
use base64::Engine;
use serde_json::Value;
use vstd::prelude::*;
use vstd::string::*;

verus! {

/// A JSON value as a cursor holds it. A number that is no integer is kept as its
/// text, an array or object as its JSON text. Two values are equal where they are
/// the same JSON value, whatever the form of an integer or the text of a number.
#[derive(Debug, Eq)]
pub enum CursorValue {
    Null,
    Bool(bool),
    Unsigned(u64),
    Signed(i64),
    Float(String),
    String(String),
    Nested(String),
}

/// A [`CursorValue`] with its texts as character sequences.
pub enum CursorValueView {
    Null,
    Bool(bool),
    Unsigned(u64),
    Signed(i64),
    Float(Seq<char>),
    String(Seq<char>),
    Nested(Seq<char>),
}

impl View for CursorValue {
    type V = CursorValueView;

    open spec fn view(&self) -> CursorValueView {
        match *self {
            CursorValue::Null => CursorValueView::Null,
            CursorValue::Bool(b) => CursorValueView::Bool(b),
            CursorValue::Unsigned(n) => CursorValueView::Unsigned(n),
            CursorValue::Signed(n) => CursorValueView::Signed(n),
            CursorValue::Float(text) => CursorValueView::Float(text@),
            CursorValue::String(text) => CursorValueView::String(text@),
            CursorValue::Nested(text) => CursorValueView::Nested(text@),
        }
    }
}

impl Clone for CursorValue {
    fn clone(&self) -> (value: Self)
        ensures
            value@ == self@,
    {
        match self {
            CursorValue::Null => CursorValue::Null,
            CursorValue::Bool(b) => CursorValue::Bool(*b),
            CursorValue::Unsigned(n) => CursorValue::Unsigned(*n),
            CursorValue::Signed(n) => CursorValue::Signed(*n),
            CursorValue::Float(text) => CursorValue::Float(text.clone()),
            CursorValue::String(text) => CursorValue::String(text.clone()),
            CursorValue::Nested(text) => CursorValue::Nested(text.clone()),
        }
    }
}

/// The values of a cursor by their views.
pub open spec fn value_views(values: Map<Seq<char>, CursorValue>) -> Map<
    Seq<char>,
    CursorValueView,
> {
    values.map_values(|value: CursorValue| value@)
}

/// What a reader of JSON makes of some bytes.
pub enum JsonRead {
    /// The bytes are not JSON.
    Malformed,
    /// The bytes are JSON, but not an object.
    NotAnObject,
    /// The bytes are an object with these members.
    Object(Map<Seq<char>, CursorValueView>),
}

/// The JSON text of an object with these members.
pub uninterp spec fn json_object(members: Map<Seq<char>, CursorValueView>) -> Seq<u8>;

/// What JSON text says.
pub uninterp spec fn json_read(bytes: Seq<u8>) -> JsonRead;

/// The base64 text of some bytes, in the URL-safe alphabet and without padding.
pub uninterp spec fn base64_text(bytes: Seq<u8>) -> Seq<char>;

/// The bytes that a base64 text stands for, if it is one.
pub uninterp spec fn base64_bytes(text: Seq<char>) -> Option<Seq<u8>>;

/// The form in which a value is kept: an integer that is not negative is unsigned,
/// and a text that writes no finite number is a null.
pub open spec fn canonical(value: CursorValueView) -> CursorValueView {
    match value {
        CursorValueView::Signed(n) if n >= 0 => CursorValueView::Unsigned(n as u64),
        CursorValueView::Float(text) if !is_decimal(unsigned(text)) => CursorValueView::Null,
        other => other,
    }
}

/// Whether two values are the same JSON value.
pub open spec fn equal_values(a: CursorValueView, b: CursorValueView) -> bool {
    match (canonical(a), canonical(b)) {
        (CursorValueView::Float(x), CursorValueView::Float(y)) => x == y || equal_numbers(x, y),
        (x, y) => x == y,
    }
}

impl PartialEq for CursorValue {
    fn eq(&self, other: &CursorValue) -> (equal: bool) {
        match (self.kept(), other.kept()) {
            (CursorValue::Null, CursorValue::Null) => true,
            (CursorValue::Bool(a), CursorValue::Bool(b)) => a == b,
            (CursorValue::Unsigned(a), CursorValue::Unsigned(b)) => a == b,
            (CursorValue::Signed(a), CursorValue::Signed(b)) => a == b,
            (CursorValue::String(a), CursorValue::String(b)) => same_text(a.as_str(), b.as_str()),
            (CursorValue::Nested(a), CursorValue::Nested(b)) => same_text(a.as_str(), b.as_str()),
            (CursorValue::Float(a), CursorValue::Float(b)) => {
                match (Numeral::parse(a.as_str()), Numeral::parse(b.as_str())) {
                    (Some(x), Some(y)) => same_text(a.as_str(), b.as_str()) || x.equals(&y),
                    _ => same_text(a.as_str(), b.as_str()),
                }
            },
            _ => false,
        }
    }
}

impl vstd::std_specs::cmp::PartialEqSpecImpl for CursorValue {
    open spec fn obeys_eq_spec() -> bool {
        true
    }

    open spec fn eq_spec(&self, other: &CursorValue) -> bool {
        equal_values(self@, other@)
    }
}

impl CursorValue {
    /// The value in the form in which it is kept.
    fn kept(&self) -> (value: CursorValue)
        ensures
            value@ == canonical(self@),
    {
        match self {
            CursorValue::Signed(n) if *n >= 0 => CursorValue::Unsigned(*n as u64),
            CursorValue::Float(text) if !finite_text(text.as_str()) => CursorValue::Null,
            other => other.clone(),
        }
    }
}

/// The members with each value in the form in which it is kept.
pub open spec fn canonical_members(members: Map<Seq<char>, CursorValueView>) -> Map<
    Seq<char>,
    CursorValueView,
> {
    members.map_values(|value: CursorValueView| canonical(value))
}

/// A null, a truth value, an integer or a text.
pub open spec fn is_plain(value: CursorValueView) -> bool {
    !(value is Float) && !(value is Nested)
}

/// Every member is a null, a truth value, an integer or a text.
pub open spec fn all_plain(members: Map<Seq<char>, CursorValueView>) -> bool {
    forall|key: Seq<char>| #[trigger] members.contains_key(key) ==> is_plain(members[key])
}

/// The one member name that a reader of JSON values does not take as it stands: the
/// value behind it is read as JSON text in place of the object around it.
pub const RAW_VALUE_KEY: &'static str = "$serde_json::private::RawValue";

#[verifier::external_type_specification]
#[verifier::external_body]
pub struct ExJsonError(serde_json::Error);

#[verifier::external_type_specification]
#[verifier::external_body]
pub struct ExBase64Error(base64::DecodeError);

/// `serde_json::to_vec` of a JSON object. Stated here: the bytes are a function
/// of the members alone, there is at least one byte, and where every value is a
/// null, a truth value, an integer or a text and no member has the name
/// [`RAW_VALUE_KEY`], reading the bytes gives the members back, the integers that
/// are not negative as unsigned ones. Of other members nothing is said beyond the
/// first two: the texts of fractions and nested values are normalized on the way,
/// a number beyond the range of `f64` and a nested text that is no JSON are
/// written as null, and of an object that starts with the reserved name the text
/// behind it is read instead.
#[verifier::external_body]
fn write_json(entries: &Vec<(String, CursorValue)>) -> (bytes: Vec<u8>)
    requires
        sorted(entries@),
    ensures
        bytes@ == json_object(value_views(entry_map(entries@))),
        bytes@.len() > 0,
        all_plain(value_views(entry_map(entries@))) && !value_views(
            entry_map(entries@),
        ).contains_key(RAW_VALUE_KEY@) ==> json_read(bytes@) == JsonRead::Object(
            canonical_members(value_views(entry_map(entries@))),
        ),
{
    let mut object = serde_json::Map::new();
    for (key, value) in entries {
        let member = match value {
            CursorValue::Null => Value::Null,
            CursorValue::Bool(b) => Value::from(*b),
            CursorValue::Unsigned(n) => Value::from(*n),
            CursorValue::Signed(n) => Value::from(*n),
            CursorValue::String(s) => Value::from(s.as_str()),
            CursorValue::Float(text) => text.parse().map_or(Value::Null, |n| serde_json::Number::from_f64(n).into()),
            CursorValue::Nested(text) => text.parse().unwrap_or_default(),
        };
        object.insert(key.clone(), member);
    }
    serde_json::to_vec(&object).unwrap_or_else(|_| b"{}".to_vec())
}

/// The entries write down exactly these members.
pub open spec fn lists_members(
    entries: Seq<(String, CursorValue)>,
    members: Map<Seq<char>, CursorValueView>,
) -> bool {
    &&& forall|i: int|
        0 <= i < entries.len() ==> members.contains_key((#[trigger] entries[i]).0@)
            && members[entries[i].0@] == entries[i].1@
    &&& forall|key: Seq<char>| #[trigger]
        members.contains_key(key) ==> exists|i: int| key_at(entries, i, key)
}

/// `serde_json::from_slice` into a JSON value, and the members of that value if it
/// is an object. Stated here: the outcome is a function of the bytes alone.
#[verifier::external_body]
fn read_json(bytes: &[u8]) -> (r: Result<Option<Vec<(String, CursorValue)>>, serde_json::Error>)
    ensures
        match r {
            Err(error) => json_read(bytes@) == JsonRead::Malformed,
            Ok(None) => json_read(bytes@) == JsonRead::NotAnObject,
            Ok(Some(entries)) => json_read(bytes@) is Object && lists_members(
                entries@,
                json_read(bytes@)->Object_0,
            ),
        },
{
    let value: Value = serde_json::from_slice(bytes)?;
    let Value::Object(object) = value else { return Ok(None) };
    let convert = |member| match member {
        Value::Null => CursorValue::Null,
        Value::Bool(b) => CursorValue::Bool(b),
        Value::String(s) => CursorValue::String(s),
        Value::Number(n) => match (n.as_u64(), n.as_i64()) {
            (Some(unsigned), _) => CursorValue::Unsigned(unsigned),
            (None, Some(signed)) => CursorValue::Signed(signed),
            (None, None) => CursorValue::Float(n.to_string()),
        },
        nested => CursorValue::Nested(nested.to_string()),
    };
    Ok(Some(object.into_iter().map(|(key, member)| (key, convert(member))).collect()))
}

/// `base64::Engine::encode` with `URL_SAFE_NO_PAD`. Stated here: the text is a
/// function of the bytes alone, decoding it gives the bytes back, and only no
/// bytes give no text.
#[verifier::external_body]
fn base64_encode(bytes: &[u8]) -> (text: String)
    ensures
        text@ == base64_text(bytes@),
        base64_bytes(text@) == Some(bytes@),
        bytes@.len() > 0 ==> text@.len() > 0,
{
    URL_SAFE_NO_PAD.encode(bytes)
}

/// `base64::Engine::decode` with `URL_SAFE_NO_PAD`. Stated here: the outcome is a
/// function of the text alone.
#[verifier::external_body]
fn base64_decode(text: &str) -> (r: Result<Vec<u8>, base64::DecodeError>)
    ensures
        match r {
            Ok(bytes) => base64_bytes(text@) == Some(bytes@),
            Err(error) => base64_bytes(text@) is None,
        },
{
    URL_SAFE_NO_PAD.decode(text)
}

/// The sort-key values identifying a page boundary. Keys are logical field names
/// (matching the sort clauses); values are scalar JSON, each in its canonical form.
#[derive(Debug, PartialEq, Eq)]
pub struct CursorState {
    values: TextMap<CursorValue>,
}

impl View for CursorState {
    type V = Map<Seq<char>, CursorValueView>;

    closed spec fn view(&self) -> Map<Seq<char>, CursorValueView> {
        value_views(self.values@)
    }
}

impl Clone for CursorState {
    fn clone(&self) -> (state: Self)
        ensures
            state@ == self@,
    {
        proof {
            use_type_invariant(self);
        }
        let values = self.values.clone();
        assert(value_views(values@) =~= self@);
        assert forall|key: Seq<char>| #[trigger]
            values@.contains_key(key) implies is_canonical(values@[key]@) by {
            assert(self.values@.contains_key(key));
        }
        CursorState { values }
    }
}

/// The value is in the form in which it is kept.
pub open spec fn is_canonical(value: CursorValueView) -> bool {
    canonical(value) == value
}

/// The token of a cursor with these values.
pub open spec fn token_of(values: Map<Seq<char>, CursorValueView>) -> Seq<char> {
    base64_text(json_object(values))
}

pub open spec fn invalid_cursor(reason: Seq<char>) -> Result<
    Map<Seq<char>, CursorValueView>,
    BuildErrorView,
> {
    Err(BuildErrorView::InvalidCursor(reason))
}

/// The values that a token stands for.
pub open spec fn token_values(token: Seq<char>) -> Result<
    Map<Seq<char>, CursorValueView>,
    BuildErrorView,
> {
    if token.len() == 0 {
        invalid_cursor("empty cursor"@)
    } else {
        match base64_bytes(token) {
            None => invalid_cursor("malformed base64"@),
            Some(bytes) => match json_read(bytes) {
                JsonRead::Malformed => invalid_cursor("malformed json"@),
                JsonRead::NotAnObject => invalid_cursor("cursor must be an object"@),
                JsonRead::Object(members) => Ok(canonical_members(members)),
            },
        }
    }
}

impl CursorState {
    #[verifier::type_invariant]
    spec fn in_canonical_form(self) -> bool {
        forall|key: Seq<char>| #[trigger]
            self.values@.contains_key(key) ==> is_canonical(self.values@[key]@)
    }

    pub fn new() -> (state: Self)
        ensures
            state@ == Map::<Seq<char>, CursorValueView>::empty(),
    {
        let state = CursorState { values: TextMap::new() };
        assert(state@ =~= Map::<Seq<char>, CursorValueView>::empty());
        state
    }

    /// Record the boundary value for one sort field. Integers that are not negative
    /// are all kept in one form; a text that writes no finite number is kept as a
    /// null.
    pub fn set(self, field: &str, value: CursorValue) -> (state: Self)
        ensures
            state@ == self@.insert(field@, canonical(value@)),
    {
        proof {
            use_type_invariant(&self);
        }
        let value = value.kept();
        let ghost before = self.values@;
        let values = self.values.insert(field, value);
        assert forall|key: Seq<char>| #[trigger]
            values@.contains_key(key) implies is_canonical(values@[key]@) by {
            if key != field@ {
                assert(before.contains_key(key));
            }
        }
        let state = CursorState { values };
        assert(state@ =~= value_views(before).insert(field@, value@));
        state
    }

    /// Encode to an opaque token.
    ///
    /// The state survives the trip: decoding the token gives it back, unless it
    /// holds a number with a fraction or exponent or a nested value, whose texts
    /// are normalized on the way, or a field with the name [`RAW_VALUE_KEY`].
    pub fn encode(&self) -> (token: String)
        ensures
            token@ == token_of(self@),
            all_plain(self@) && !self@.contains_key(RAW_VALUE_KEY@) ==> token_values(token@)
                == Ok::<Map<Seq<char>, CursorValueView>, BuildErrorView>(self@),
    {
        proof {
            use_type_invariant(self);
            assert forall|key: Seq<char>| #[trigger] self@.contains_key(key) implies canonical(
                self@[key],
            ) == self@[key] by {
                assert(self.values@.contains_key(key));
            }
            assert(canonical_members(self@) =~= self@);
        }
        let json = write_json(self.values.entries());
        base64_encode(json.as_slice())
    }

    /// Decode an opaque token produced by [`CursorState::encode`].
    pub fn decode(token: &str) -> (r: Result<Self, QueryBuildError>)
        ensures
            match r {
                Ok(state) => token_values(token@) == Ok::<
                    Map<Seq<char>, CursorValueView>,
                    BuildErrorView,
                >(state@),
                Err(error) => token_values(token@) == Err::<
                    Map<Seq<char>, CursorValueView>,
                    BuildErrorView,
                >(error@),
            },
    {
        if token.is_empty() {
            return Err(QueryBuildError::InvalidCursor("empty cursor".to_owned()));
        }
        let bytes = match base64_decode(token) {
            Ok(bytes) => bytes,
            Err(_) => return Err(QueryBuildError::InvalidCursor("malformed base64".to_owned())),
        };
        match read_json(bytes.as_slice()) {
            Ok(entries) => CursorState::from_members(entries),
            Err(_) => Err(QueryBuildError::InvalidCursor("malformed json".to_owned())),
        }
    }

    /// The state with the members of a decoded object, each in its canonical form;
    /// anything but an object is refused. Of several members with one key the last
    /// counts.
    pub fn from_members(entries: Option<Vec<(String, CursorValue)>>) -> (r: Result<
        Self,
        QueryBuildError,
    >)
        ensures
            match entries {
                None => r is Err && r->Err_0@ == BuildErrorView::InvalidCursor(
                    "cursor must be an object"@,
                ),
                Some(entries) => r is Ok && r->Ok_0@ == members_of(entries@),
            },
            entries is Some ==> forall|members: Map<Seq<char>, CursorValueView>| #[trigger]
                lists_members(entries->0@, members) ==> r->Ok_0@ == canonical_members(members),
    {
        match entries {
            None => Err(QueryBuildError::InvalidCursor("cursor must be an object".to_owned())),
            Some(entries) => {
                let mut state = CursorState::new();
                let mut rest = entries;
                let ghost all = entries@;
                assert(all.take(0) =~= Seq::empty());
                while rest.len() > 0
                    invariant
                        rest@.len() <= all.len(),
                        rest@ == all.skip(all.len() - rest@.len()),
                        state@ == members_of(all.take(all.len() - rest@.len())),
                    decreases rest@.len(),
                {
                    let ghost done = all.len() - rest@.len();
                    assert(rest@[0] == all[done]);
                    assert(all.take(done + 1).drop_last() =~= all.take(done));
                    assert(rest@.remove(0) =~= all.skip(done + 1));
                    let (key, value) = rest.remove(0);
                    state = state.set(key.as_str(), value);
                }
                assert(all.take(all.len() as int) =~= all);
                proof {
                    assert forall|members: Map<Seq<char>, CursorValueView>| #[trigger]
                        lists_members(all, members) implies members_of(all) == canonical_members(
                        members,
                    ) by {
                        lemma_members_listed(all, members, all.len());
                        assert(members_of(all) =~= canonical_members(members)) by {
                            assert forall|key: Seq<char>| members.contains_key(
                                key,
                            ) implies members_of(all).contains_key(key) by {
                                let i = choose|i: int| key_at(all, i, key);
                                assert(all.take(all.len() as int)[i].0@ == key);
                            }
                        }
                    }
                }
                Ok(state)
            },
        }
    }

    /// The value for a sort field.
    pub(crate) fn lookup(&self, field: &str) -> (r: Result<&CursorValue, QueryBuildError>)
        ensures
            match r {
                Ok(value) => self@.contains_key(field@) && value@ == self@[field@],
                Err(error) => !self@.contains_key(field@) && error@
                    == BuildErrorView::InvalidCursor(missing_reason(field@)),
            },
    {
        match self.values.get(field) {
            Some(value) => Ok(value),
            None => Err(
                QueryBuildError::InvalidCursor(
                    "cursor is missing sort field '".to_owned().concat(field).concat("'"),
                ),
            ),
        }
    }
}

pub open spec fn missing_reason(field: Seq<char>) -> Seq<char> {
    "cursor is missing sort field '"@ + field + "'"@
}

/// The members that a list of entries writes down, the later ones on top, each in
/// its canonical form.
pub open spec fn members_of(entries: Seq<(String, CursorValue)>) -> Map<
    Seq<char>,
    CursorValueView,
>
    decreases entries.len(),
{
    if entries.len() == 0 {
        Map::empty()
    } else {
        members_of(entries.drop_last()).insert(
            entries.last().0@,
            canonical(entries.last().1@),
        )
    }
}

proof fn lemma_members_listed(
    entries: Seq<(String, CursorValue)>,
    members: Map<Seq<char>, CursorValueView>,
    n: nat,
)
    requires
        n <= entries.len(),
        lists_members(entries, members),
    ensures
        forall|key: Seq<char>| #[trigger]
            members_of(entries.take(n as int)).contains_key(key) ==> members.contains_key(key)
                && canonical(members[key]) == members_of(entries.take(n as int))[key],
        forall|i: int|
            0 <= i < n ==> members_of(entries.take(n as int)).contains_key(
                (#[trigger] entries.take(n as int)[i]).0@,
            ),
        entries.take(entries.len() as int) == entries,
    decreases n,
{
    assert(entries.take(entries.len() as int) =~= entries);
    if n > 0 {
        lemma_members_listed(entries, members, (n - 1) as nat);
        let taken = entries.take(n as int);
        let shorter = entries.take(n - 1);
        assert(taken.drop_last() =~= shorter);
        assert(taken.last() == entries[n - 1]);
        assert forall|key: Seq<char>| #[trigger]
            members_of(taken).contains_key(key) implies members.contains_key(key) && canonical(
            members[key],
        ) == members_of(taken)[key] by {
            if key != entries[n - 1].0@ {
                assert(members_of(shorter).contains_key(key));
            }
        }
        assert forall|i: int| 0 <= i < n implies members_of(taken).contains_key(
            (#[trigger] taken[i]).0@,
        ) by {
            if i < n - 1 {
                assert(shorter[i] == taken[i]);
            }
        }
    } else {
        assert(entries.take(0) =~= Seq::empty());
    }
}

impl Default for CursorState {
    fn default() -> (state: Self)
        ensures
            state@ == Map::<Seq<char>, CursorValueView>::empty(),
    {
        CursorState::new()
    }
}

} // verus!
