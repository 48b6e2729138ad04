//! Optional string filter grammar.
//!
//! A compact infix syntax for CLI, saved views, and expert search boxes. It is
//! not the canonical wire syntax: it parses into the same filter tree and runs
//! through the same allowlist as bracket filters, so it has no independent path
//! to the SQL builder and cannot bypass field/operator validation.
//!
//! # Grammar
//!
//! - equality / comparison: `name='Alice'`, `age>=18`, `price<100`
//! - logical and / or: `name='Alice' & active=true`, `a=1 | b=2`
//! - parenthesized groups: `(a=1 | b=2) & active=true`
//! - set membership: `id @ ('a','b')`, `id !@ ('a','b')`
//! - pattern match: `name ~ 'a%'` (LIKE), `name ~~ 'a%'` (ILIKE)
//! - substring helpers: `name contains 'ab'`, `name startswith 'a'`,
//!   `name endswith 'z'`
//! - values: single-quoted strings, numbers, `true`, `false`, `null`
use crate::api_contract::list_query::{parse_scalar, scalar_of};
use crate::api_contract::query::{
    lemma_group_tree, scalar_views, tree_views, BoolOperator, FilterNode, FilterOperator,
    FilterScalar, FilterTree, FilterValue, QueryError, QueryErrorView, QuerySchema, ScalarView,
    SchemaView, ValueView,
};
use crate::scan::{chars_stand_at, stands_at};
use crate::text::{
    blank, chars_of, is_blank, joined, lemma_texts_push, slice_text, texts, trim, trim_end,
    trim_start, trimmed,
};
use vstd::prelude::*;
use vstd::string::*;

verus! {

/// String DSL parse or validation failure.
#[derive(Clone, Debug, PartialEq)]
pub enum DslError {
    Syntax(String),
    UnbalancedParentheses,
    Validation(QueryError),
}

/// A [`DslError`] by its views.
pub enum DslErrorView {
    Syntax(Seq<char>),
    UnbalancedParentheses,
    Validation(QueryErrorView),
}

impl View for DslError {
    type V = DslErrorView;

    open spec fn view(&self) -> DslErrorView {
        match *self {
            DslError::Syntax(text) => DslErrorView::Syntax(text@),
            DslError::UnbalancedParentheses => DslErrorView::UnbalancedParentheses,
            DslError::Validation(error) => DslErrorView::Validation(error@),
        }
    }
}

/// How far a text was split: the finished parts, the part being read, how many
/// parentheses are open, and whether a quote is.
pub struct SplitState {
    pub parts: Seq<Seq<char>>,
    pub current: Seq<char>,
    pub depth: nat,
    pub quoted: bool,
}

impl SplitState {
    /// The state after one more character; `None` for a parenthesis that closes
    /// nothing.
    pub open spec fn read(self, c: char, delimiter: char) -> Option<SplitState> {
        let longer = self.current.push(c);
        if c == '\'' {
            Some(SplitState { current: longer, quoted: !self.quoted, ..self })
        } else if c == '(' && !self.quoted {
            Some(SplitState { current: longer, depth: self.depth + 1, ..self })
        } else if c == ')' && !self.quoted {
            if self.depth == 0 {
                None
            } else {
                Some(SplitState { current: longer, depth: (self.depth - 1) as nat, ..self })
            }
        } else if c == delimiter && self.depth == 0 && !self.quoted {
            Some(
                SplitState {
                    parts: self.parts.push(self.current),
                    current: Seq::empty(),
                    ..self
                },
            )
        } else {
            Some(SplitState { current: longer, ..self })
        }
    }
}

/// The state after the first `n` characters.
pub open spec fn split_state(s: Seq<char>, n: nat, delimiter: char) -> Option<SplitState>
    decreases n,
{
    if n == 0 {
        Some(
            SplitState {
                parts: Seq::empty(),
                current: Seq::empty(),
                depth: 0,
                quoted: false,
            },
        )
    } else {
        match split_state(s, (n - 1) as nat, delimiter) {
            None => None,
            Some(state) => state.read(s[n - 1], delimiter),
        }
    }
}

/// The parts of `s` between delimiters that stand outside parentheses and quotes;
/// `None` where these are not balanced.
pub open spec fn top_level(s: Seq<char>, delimiter: char) -> Option<Seq<Seq<char>>> {
    match split_state(s, s.len(), delimiter) {
        Some(state) if !state.quoted && state.depth == 0 => Some(state.parts.push(state.current)),
        _ => None,
    }
}

proof fn lemma_split_fails(s: Seq<char>, n: nat, delimiter: char)
    requires
        n <= s.len(),
        split_state(s, n, delimiter) is None,
    ensures
        split_state(s, s.len(), delimiter) is None,
    decreases s.len() - n,
{
    if n < s.len() {
        lemma_split_fails(s, n + 1, delimiter);
    }
}

/// Split on `delimiter` at paren depth zero and outside quotes.
pub fn split_top_level(input: &str, delimiter: char) -> (r: Result<Vec<String>, DslError>)
    ensures
        match r {
            Ok(parts) => top_level(input@, delimiter) == Some(texts(parts@)),
            Err(error) => top_level(input@, delimiter) is None && error@
                == DslErrorView::UnbalancedParentheses,
        },
{
    broadcast use lemma_texts_push;

    let chars = chars_of(input);
    let mut parts: Vec<String> = Vec::new();
    let mut current = String::new();
    let mut depth: usize = 0;
    let mut quoted = false;
    let mut i: usize = 0;
    assert(texts(parts@) =~= Seq::empty());
    assert(current@ =~= Seq::empty());
    while i < chars.len()
        invariant
            i <= chars@.len(),
            chars@ == input@,
            depth <= i,
            split_state(input@, i as nat, delimiter) == Some(
                SplitState {
                    parts: texts(parts@),
                    current: current@,
                    depth: depth as nat,
                    quoted,
                },
            ),
        decreases chars@.len() - i,
    {
        let c = chars[i];
        assert(split_state(input@, (i + 1) as nat, delimiter) == split_state(
            input@,
            i as nat,
            delimiter,
        )->0.read(c, delimiter));
        if c == '\'' {
            quoted = !quoted;
            current.push(c);
        } else if c == '(' && !quoted {
            depth += 1;
            current.push(c);
        } else if c == ')' && !quoted {
            if depth == 0 {
                proof {
                    lemma_split_fails(input@, (i + 1) as nat, delimiter);
                }
                return Err(DslError::UnbalancedParentheses);
            }
            depth -= 1;
            current.push(c);
        } else if c == delimiter && depth == 0 && !quoted {
            let ghost finished = current@;
            let ghost before = parts@;
            parts.push(current);
            current = String::new();
            assert(current@ =~= Seq::empty());
            assert(texts(parts@) =~= texts(before).push(finished));
        } else {
            current.push(c);
        }
        i += 1;
    }
    if quoted || depth != 0 {
        return Err(DslError::UnbalancedParentheses);
    }
    parts.push(current);
    Ok(parts)
}

/// The operators in the order in which they are tried: word operators first, then
/// longer symbols before shorter ones.
pub open spec fn operator_tokens() -> Seq<(Seq<char>, FilterOperator)> {
    seq![
        (" contains "@, FilterOperator::Contains),
        (" startswith "@, FilterOperator::StartsWith),
        (" endswith "@, FilterOperator::EndsWith),
        ("!@"@, FilterOperator::NotIn),
        (">="@, FilterOperator::Gte),
        ("<="@, FilterOperator::Lte),
        ("!="@, FilterOperator::Ne),
        ("~~"@, FilterOperator::Ilike),
        ("@"@, FilterOperator::In),
        ("~"@, FilterOperator::Like),
        (">"@, FilterOperator::Gt),
        ("<"@, FilterOperator::Lt),
        ("="@, FilterOperator::Eq),
    ]
}

/// The first token from `k` on in the list that stands in `s` at `i`.
pub open spec fn token_at(
    tokens: Seq<(Seq<char>, FilterOperator)>,
    k: int,
    s: Seq<char>,
    i: int,
) -> Option<(int, FilterOperator)>
    decreases tokens.len() - k,
{
    if k < 0 || k >= tokens.len() {
        None
    } else if stands_at(s, i, tokens[k].0) {
        Some((tokens[k].0.len() as int, tokens[k].1))
    } else {
        token_at(tokens, k + 1, s, i)
    }
}

/// The first operator from position `i` on that stands outside quotes: where it
/// stands, how long it is, and which it is.
pub open spec fn operator_from(s: Seq<char>, i: int, quoted: bool) -> Option<
    (int, int, FilterOperator),
>
    decreases s.len() - i,
{
    if i < 0 || i >= s.len() {
        None
    } else if s[i] == '\'' {
        operator_from(s, i + 1, !quoted)
    } else if quoted {
        operator_from(s, i + 1, quoted)
    } else {
        match token_at(operator_tokens(), 0, s, i) {
            Some((len, operator)) => Some((i, len, operator)),
            None => operator_from(s, i + 1, quoted),
        }
    }
}

/// One operator token.
struct Token {
    text: Vec<char>,
    operator: FilterOperator,
}

spec fn token_views(tokens: Seq<Token>) -> Seq<(Seq<char>, FilterOperator)> {
    tokens.map_values(|token: Token| (token.text@, token.operator))
}

fn token(text: &str, operator: FilterOperator) -> (token: Token)
    ensures
        token.text@ == text@,
        token.operator == operator,
{
    Token { text: chars_of(text), operator }
}

fn tokens() -> (tokens: Vec<Token>)
    ensures
        token_views(tokens@) == operator_tokens(),
{
    let tokens: Vec<Token> = vec![
        token(" contains ", FilterOperator::Contains),
        token(" startswith ", FilterOperator::StartsWith),
        token(" endswith ", FilterOperator::EndsWith),
        token("!@", FilterOperator::NotIn),
        token(">=", FilterOperator::Gte),
        token("<=", FilterOperator::Lte),
        token("!=", FilterOperator::Ne),
        token("~~", FilterOperator::Ilike),
        token("@", FilterOperator::In),
        token("~", FilterOperator::Like),
        token(">", FilterOperator::Gt),
        token("<", FilterOperator::Lt),
        token("=", FilterOperator::Eq),
    ];
    assert(token_views(tokens@) =~= operator_tokens());
    tokens
}

/// Find the first top-level operator (outside quotes), returning the index where
/// the field ends, the operator's length, and the operator.
fn find_operator(chars: &Vec<char>) -> (found: Option<(usize, usize, FilterOperator)>)
    ensures
        match found {
            Some((at, len, operator)) => operator_from(chars@, 0, false) == Some(
                (at as int, len as int, operator),
            ) && at + len <= chars@.len(),
            None => operator_from(chars@, 0, false) is None,
        },
{
    let tokens = tokens();
    let mut quoted = false;
    let mut i: usize = 0;
    while i < chars.len()
        invariant
            i <= chars@.len(),
            token_views(tokens@) == operator_tokens(),
            operator_from(chars@, 0, false) == operator_from(chars@, i as int, quoted),
        decreases chars@.len() - i,
    {
        if chars[i] == '\'' {
            quoted = !quoted;
        } else if !quoted {
            let mut k: usize = 0;
            while k < tokens.len()
                invariant
                    i < chars@.len(),
                    k <= tokens@.len(),
                    !quoted,
                    chars@[i as int] != '\'',
                    token_views(tokens@) == operator_tokens(),
                    operator_from(chars@, 0, false) == operator_from(chars@, i as int, quoted),
                    token_at(operator_tokens(), 0, chars@, i as int) == token_at(
                        operator_tokens(),
                        k as int,
                        chars@,
                        i as int,
                    ),
                decreases tokens@.len() - k,
            {
                assert(operator_tokens()[k as int] == token_views(tokens@)[k as int]);
                if chars_stand_at(chars, i, tokens[k].text.as_slice()) {
                    return Some((i, tokens[k].text.len(), tokens[k].operator));
                }
                k += 1;
            }
        }
        i += 1;
    }
    None
}

/// `s` stands between the two characters.
pub open spec fn enclosed(s: Seq<char>, open: char, close: char) -> bool {
    s.len() >= 2 && s.first() == open && s.last() == close
}

/// What stands between the first and the last character.
pub open spec fn inner(s: Seq<char>) -> Seq<char> {
    s.subrange(1, s.len() - 1)
}

/// The scalar that a value of the grammar stands for.
pub open spec fn dsl_scalar(raw: Seq<char>) -> ScalarView {
    if enclosed(raw, '\'', '\'') {
        ScalarView::String(inner(raw))
    } else {
        scalar_of(raw)
    }
}

/// The set that a value of the grammar stands for.
pub open spec fn dsl_set(raw: Seq<char>) -> Result<Seq<ScalarView>, DslErrorView> {
    if !enclosed(raw, '(', ')') {
        Err(DslErrorView::Syntax("set must be parenthesized: '"@ + raw + "'"@))
    } else if is_blank(inner(raw)) {
        Ok(Seq::empty())
    } else {
        match top_level(inner(raw), ',') {
            None => Err(DslErrorView::UnbalancedParentheses),
            Some(items) => Ok(items.map_values(|item: Seq<char>| dsl_scalar(trimmed(item)))),
        }
    }
}

/// The condition that a text stands for: a field, an operator and a value.
pub open spec fn dsl_condition(s: Seq<char>) -> Result<FilterTree, DslErrorView> {
    match operator_from(s, 0, false) {
        None => Err(DslErrorView::Syntax("no operator in condition '"@ + s + "'"@)),
        Some((at, len, operator)) => {
            let field = trimmed(s.take(at));
            let raw = trimmed(s.skip(at + len));
            if field.len() == 0 {
                Err(DslErrorView::Syntax("missing field in '"@ + s + "'"@))
            } else if operator == FilterOperator::In || operator == FilterOperator::NotIn {
                match dsl_set(raw) {
                    Err(fault) => Err(fault),
                    Ok(scalars) => Ok(
                        FilterTree::Condition { field, operator, value: ValueView::List(scalars) },
                    ),
                }
            } else {
                Ok(
                    FilterTree::Condition {
                        field,
                        operator,
                        value: ValueView::Scalar(dsl_scalar(raw)),
                    },
                )
            }
        },
    }
}

/// What stands between the first and the last character of a text.
fn inner_text(chars: &Vec<char>) -> (text: String)
    requires
        chars@.len() >= 2,
    ensures
        text@ == inner(chars@),
{
    slice_text(chars, 1, chars.len() - 1)
}

fn parse_dsl_scalar(raw: &str) -> (scalar: FilterScalar)
    ensures
        scalar@ == dsl_scalar(raw@),
{
    let chars = chars_of(raw);
    if chars.len() >= 2 && chars[0] == '\'' && chars[chars.len() - 1] == '\'' {
        FilterScalar::String(inner_text(&chars))
    } else {
        parse_scalar(raw)
    }
}

fn parse_set(raw: &str) -> (r: Result<Vec<FilterScalar>, DslError>)
    ensures
        match r {
            Ok(scalars) => dsl_set(raw@) == Ok::<Seq<ScalarView>, DslErrorView>(
                scalar_views(scalars@),
            ),
            Err(error) => dsl_set(raw@) == Err::<Seq<ScalarView>, DslErrorView>(error@),
        },
{
    let chars = chars_of(raw);
    if !(chars.len() >= 2 && chars[0] == '(' && chars[chars.len() - 1] == ')') {
        return Err(
            DslError::Syntax("set must be parenthesized: '".to_owned().concat(raw).concat("'")),
        );
    }
    let inside = inner_text(&chars);
    let mut scalars: Vec<FilterScalar> = Vec::new();
    if blank(inside.as_str()) {
        assert(scalar_views(scalars@) =~= Seq::empty());
        return Ok(scalars);
    }
    let items = match split_top_level(inside.as_str(), ',') {
        Ok(items) => items,
        Err(error) => return Err(error),
    };
    let ghost wanted = texts(items@).map_values(|item: Seq<char>| dsl_scalar(trimmed(item)));
    let mut i: usize = 0;
    assert(scalar_views(scalars@) =~= wanted.take(0));
    while i < items.len()
        invariant
            i <= items@.len(),
            wanted == texts(items@).map_values(|item: Seq<char>| dsl_scalar(trimmed(item))),
            scalar_views(scalars@) == wanted.take(i as int),
        decreases items@.len() - i,
    {
        let ghost before = scalars@;
        let item = trim(items[i].as_str());
        let scalar = parse_dsl_scalar(item.as_str());
        assert(scalar@ == wanted[i as int]);
        scalars.push(scalar);
        assert(scalar_views(scalars@) =~= scalar_views(before).push(scalar@));
        assert(wanted.take(i + 1) =~= wanted.take(i as int).push(wanted[i as int]));
        i += 1;
    }
    assert(wanted.take(i as int) =~= wanted);
    Ok(scalars)
}

fn parse_condition(input: &str) -> (r: Result<FilterNode, DslError>)
    ensures
        match r {
            Ok(node) => dsl_condition(input@) == Ok::<FilterTree, DslErrorView>(node@),
            Err(error) => dsl_condition(input@) == Err::<FilterTree, DslErrorView>(error@),
        },
{
    let chars = chars_of(input);
    let (at, len, operator) = match find_operator(&chars) {
        Some(found) => found,
        None => return Err(
            DslError::Syntax("no operator in condition '".to_owned().concat(input).concat("'")),
        ),
    };
    let end: usize = chars.len();
    let before = slice_text(&chars, 0, at);
    let after = slice_text(&chars, at + len, end);
    assert(before@ =~= input@.take(at as int));
    assert(after@ =~= input@.skip(at + len));
    let field = trim(before.as_str());
    let raw = trim(after.as_str());
    if field.as_str().is_empty() {
        return Err(DslError::Syntax("missing field in '".to_owned().concat(input).concat("'")));
    }
    let value = if operator == FilterOperator::In || operator == FilterOperator::NotIn {
        match parse_set(raw.as_str()) {
            Ok(scalars) => FilterValue::List(scalars),
            Err(error) => return Err(error),
        }
    } else {
        FilterValue::Scalar(parse_dsl_scalar(raw.as_str()))
    };
    Ok(FilterNode::Condition { field, operator, value })
}

proof fn lemma_trimmed_len(s: Seq<char>)
    ensures
        trimmed(s).len() <= s.len(),
{
    lemma_trim_start_len(s);
    lemma_trim_end_len(trim_start(s));
}

proof fn lemma_trim_start_len(s: Seq<char>)
    ensures
        trim_start(s).len() <= s.len(),
    decreases s.len(),
{
    if s.len() > 0 {
        lemma_trim_start_len(s.drop_first());
    }
}

proof fn lemma_trim_end_len(s: Seq<char>)
    ensures
        trim_end(s).len() <= s.len(),
    decreases s.len(),
{
    if s.len() > 0 {
        lemma_trim_end_len(s.drop_last());
    }
}

proof fn lemma_split_state_len(s: Seq<char>, n: nat, delimiter: char)
    requires
        split_state(s, n, delimiter) is Some,
    ensures
        ({
            let state = split_state(s, n, delimiter)->0;
            &&& state.current.len() <= n
            &&& forall|i: int|
                0 <= i < state.parts.len() ==> (#[trigger] state.parts[i]).len() <= n
        }),
    decreases n,
{
    if n > 0 {
        lemma_split_state_len(s, (n - 1) as nat, delimiter);
    }
}

/// No part is longer than the text, before or after trimming.
proof fn lemma_parts_len(s: Seq<char>, delimiter: char)
    ensures
        top_level(s, delimiter) is Some ==> forall|i: int|
            0 <= i < top_level(s, delimiter)->0.len() ==> trimmed(
                #[trigger] top_level(s, delimiter)->0[i],
            ).len() <= s.len(),
{
    if top_level(s, delimiter) is Some {
        let parts = top_level(s, delimiter)->0;
        lemma_split_state_len(s, s.len(), delimiter);
        assert forall|i: int| 0 <= i < parts.len() implies trimmed(#[trigger] parts[i]).len()
            <= s.len() by {
            lemma_trimmed_len(parts[i]);
        }
    }
}

/// The filter that a disjunction stands for: its parts between `|`, or the one
/// part that it has.
pub open spec fn dsl_or(s: Seq<char>) -> Result<FilterTree, DslErrorView>
    decreases s.len(), 4nat, 0nat via dsl_or_decreases
{
    match top_level(s, '|') {
        None => Err(DslErrorView::UnbalancedParentheses),
        Some(parts) => if parts.len() == 1 {
            dsl_and(trimmed(parts[0]))
        } else {
            match dsl_or_parts(s, parts.len()) {
                Err(fault) => Err(fault),
                Ok(conditions) => Ok(
                    FilterTree::Group { operator: BoolOperator::Or, conditions },
                ),
            }
        },
    }
}

#[via_fn]
proof fn dsl_or_decreases(s: Seq<char>) {
    lemma_parts_len(s, '|');
}

/// The filters of the first `n` parts of a disjunction.
pub open spec fn dsl_or_parts(s: Seq<char>, n: nat) -> Result<Seq<FilterTree>, DslErrorView>
    decreases s.len(), 3nat, n via dsl_or_parts_decreases
{
    match top_level(s, '|') {
        Some(parts) if 0 < n <= parts.len() => match dsl_or_parts(s, (n - 1) as nat) {
            Err(fault) => Err(fault),
            Ok(conditions) => match dsl_and(trimmed(parts[n - 1])) {
                Err(fault) => Err(fault),
                Ok(condition) => Ok(conditions.push(condition)),
            },
        },
        _ => Ok(Seq::empty()),
    }
}

#[via_fn]
proof fn dsl_or_parts_decreases(s: Seq<char>, n: nat) {
    lemma_parts_len(s, '|');
}

/// The filter that a conjunction stands for: its parts between `&`, or the one
/// part that it has.
pub open spec fn dsl_and(s: Seq<char>) -> Result<FilterTree, DslErrorView>
    decreases s.len(), 2nat, 0nat via dsl_and_decreases
{
    match top_level(s, '&') {
        None => Err(DslErrorView::UnbalancedParentheses),
        Some(parts) => if parts.len() == 1 {
            dsl_primary(trimmed(parts[0]))
        } else {
            match dsl_and_parts(s, parts.len()) {
                Err(fault) => Err(fault),
                Ok(conditions) => Ok(
                    FilterTree::Group { operator: BoolOperator::And, conditions },
                ),
            }
        },
    }
}

#[via_fn]
proof fn dsl_and_decreases(s: Seq<char>) {
    lemma_parts_len(s, '&');
}

/// The filters of the first `n` parts of a conjunction.
pub open spec fn dsl_and_parts(s: Seq<char>, n: nat) -> Result<Seq<FilterTree>, DslErrorView>
    decreases s.len(), 1nat, n via dsl_and_parts_decreases
{
    match top_level(s, '&') {
        Some(parts) if 0 < n <= parts.len() => match dsl_and_parts(s, (n - 1) as nat) {
            Err(fault) => Err(fault),
            Ok(conditions) => match dsl_primary(trimmed(parts[n - 1])) {
                Err(fault) => Err(fault),
                Ok(condition) => Ok(conditions.push(condition)),
            },
        },
        _ => Ok(Seq::empty()),
    }
}

#[via_fn]
proof fn dsl_and_parts_decreases(s: Seq<char>, n: nat) {
    lemma_parts_len(s, '&');
}

/// The filter that an expression stands for: a parenthesized filter, or a
/// condition.
pub open spec fn dsl_primary(s: Seq<char>) -> Result<FilterTree, DslErrorView>
    decreases s.len(), 0nat, 0nat via dsl_primary_decreases
{
    if s.len() == 0 {
        Err(DslErrorView::Syntax("empty expression"@))
    } else if enclosed(s, '(', ')') {
        dsl_or(trimmed(inner(s)))
    } else {
        dsl_condition(s)
    }
}

#[via_fn]
proof fn dsl_primary_decreases(s: Seq<char>) {
    if enclosed(s, '(', ')') {
        lemma_trimmed_len(inner(s));
    }
}

/// The filter that a text stands for, held to the schema's allowlist.
pub open spec fn dsl_filter(input: Seq<char>, schema: SchemaView) -> Result<
    FilterTree,
    DslErrorView,
> {
    match dsl_or(trimmed(input)) {
        Err(fault) => Err(fault),
        Ok(tree) => match schema.filter_fault(tree) {
            Some(fault) => Err(DslErrorView::Validation(fault)),
            None => Ok(tree),
        },
    }
}

proof fn lemma_or_parts_fail(s: Seq<char>, n: nat)
    requires
        top_level(s, '|') is Some,
        n <= top_level(s, '|')->0.len(),
    ensures
        dsl_or_parts(s, n) is Err ==> dsl_or_parts(s, top_level(s, '|')->0.len()) == dsl_or_parts(
            s,
            n,
        ),
    decreases top_level(s, '|')->0.len() - n,
{
    if n < top_level(s, '|')->0.len() {
        lemma_or_parts_fail(s, n + 1);
    }
}

proof fn lemma_and_parts_fail(s: Seq<char>, n: nat)
    requires
        top_level(s, '&') is Some,
        n <= top_level(s, '&')->0.len(),
    ensures
        dsl_and_parts(s, n) is Err ==> dsl_and_parts(s, top_level(s, '&')->0.len())
            == dsl_and_parts(s, n),
    decreases top_level(s, '&')->0.len() - n,
{
    if n < top_level(s, '&')->0.len() {
        lemma_and_parts_fail(s, n + 1);
    }
}

fn parse_or(input: &str) -> (r: Result<FilterNode, DslError>)
    ensures
        match r {
            Ok(node) => dsl_or(input@) == Ok::<FilterTree, DslErrorView>(node@),
            Err(error) => dsl_or(input@) == Err::<FilterTree, DslErrorView>(error@),
        },
    decreases input@.len(), 4nat,
{
    let parts = match split_top_level(input, '|') {
        Ok(parts) => parts,
        Err(error) => return Err(error),
    };
    let ghost all = texts(parts@);
    proof {
        lemma_parts_len(input@, '|');
        assert(forall|i: int| 0 <= i < all.len() ==> #[trigger] all[i] == parts@[i]@);
    }
    if parts.len() == 1 {
        let part = trim(parts[0].as_str());
        assert(all[0] == parts@[0]@);
        return parse_and(part.as_str());
    }
    let mut conditions: Vec<FilterNode> = Vec::new();
    let mut i: usize = 0;
    assert(tree_views(conditions@) =~= Seq::empty());
    while i < parts.len()
        invariant
            i <= parts@.len(),
            all == texts(parts@),
            top_level(input@, '|') == Some(all),
            all.len() != 1,
            forall|i: int| 0 <= i < all.len() ==> trimmed(#[trigger] all[i]).len() <= input@.len(),
            dsl_or_parts(input@, i as nat) == Ok::<Seq<FilterTree>, DslErrorView>(
                tree_views(conditions@),
            ),
        decreases parts@.len() - i,
    {
        let ghost before = conditions@;
        proof {
            assert(all[i as int] == parts@[i as int]@);
            lemma_or_parts_fail(input@, (i + 1) as nat);
        }
        let part = trim(parts[i].as_str());
        match parse_and(part.as_str()) {
            Ok(condition) => {
                conditions.push(condition);
                assert(tree_views(conditions@) =~= tree_views(before).push(condition@));
            },
            Err(error) => return Err(error),
        }
        i += 1;
    }
    proof {
        lemma_group_tree(BoolOperator::Or, conditions);
    }
    Ok(FilterNode::Group { operator: BoolOperator::Or, conditions })
}

fn parse_and(input: &str) -> (r: Result<FilterNode, DslError>)
    ensures
        match r {
            Ok(node) => dsl_and(input@) == Ok::<FilterTree, DslErrorView>(node@),
            Err(error) => dsl_and(input@) == Err::<FilterTree, DslErrorView>(error@),
        },
    decreases input@.len(), 2nat,
{
    let parts = match split_top_level(input, '&') {
        Ok(parts) => parts,
        Err(error) => return Err(error),
    };
    let ghost all = texts(parts@);
    proof {
        lemma_parts_len(input@, '&');
        assert(forall|i: int| 0 <= i < all.len() ==> #[trigger] all[i] == parts@[i]@);
    }
    if parts.len() == 1 {
        let part = trim(parts[0].as_str());
        assert(all[0] == parts@[0]@);
        return parse_primary(part.as_str());
    }
    let mut conditions: Vec<FilterNode> = Vec::new();
    let mut i: usize = 0;
    assert(tree_views(conditions@) =~= Seq::empty());
    while i < parts.len()
        invariant
            i <= parts@.len(),
            all == texts(parts@),
            top_level(input@, '&') == Some(all),
            all.len() != 1,
            forall|i: int| 0 <= i < all.len() ==> trimmed(#[trigger] all[i]).len() <= input@.len(),
            dsl_and_parts(input@, i as nat) == Ok::<Seq<FilterTree>, DslErrorView>(
                tree_views(conditions@),
            ),
        decreases parts@.len() - i,
    {
        let ghost before = conditions@;
        proof {
            assert(all[i as int] == parts@[i as int]@);
            lemma_and_parts_fail(input@, (i + 1) as nat);
        }
        let part = trim(parts[i].as_str());
        match parse_primary(part.as_str()) {
            Ok(condition) => {
                conditions.push(condition);
                assert(tree_views(conditions@) =~= tree_views(before).push(condition@));
            },
            Err(error) => return Err(error),
        }
        i += 1;
    }
    proof {
        lemma_group_tree(BoolOperator::And, conditions);
    }
    Ok(FilterNode::Group { operator: BoolOperator::And, conditions })
}

fn parse_primary(input: &str) -> (r: Result<FilterNode, DslError>)
    ensures
        match r {
            Ok(node) => dsl_primary(input@) == Ok::<FilterTree, DslErrorView>(node@),
            Err(error) => dsl_primary(input@) == Err::<FilterTree, DslErrorView>(error@),
        },
    decreases input@.len(), 0nat,
{
    if input.is_empty() {
        return Err(DslError::Syntax("empty expression".to_owned()));
    }
    let chars = chars_of(input);
    if chars.len() >= 2 && chars[0] == '(' && chars[chars.len() - 1] == ')' {
        let inside = inner_text(&chars);
        let part = trim(inside.as_str());
        proof {
            lemma_trimmed_len(inside@);
        }
        return parse_or(part.as_str());
    }
    parse_condition(input)
}

/// Parse a filter string into a `FilterNode` and validate it against `schema`.
pub fn parse_filter_dsl(input: &str, schema: &QuerySchema) -> (r: Result<FilterNode, DslError>)
    ensures
        match r {
            Ok(node) => dsl_filter(input@, schema@) == Ok::<FilterTree, DslErrorView>(node@),
            Err(error) => dsl_filter(input@, schema@) == Err::<FilterTree, DslErrorView>(error@),
        },
{
    let text = trim(input);
    let node = match parse_or(text.as_str()) {
        Ok(node) => node,
        Err(error) => return Err(error),
    };
    match schema.validate_filter(&node) {
        Ok(()) => Ok(node),
        Err(error) => Err(DslError::Validation(error)),
    }
}

/// The grammar has no path around the allowlist: whatever it parses, every
/// condition is on an allowed field with an operator allowed on it.
pub proof fn dsl_filters_stay_inside_the_allowlist(input: Seq<char>, schema: SchemaView)
    requires
        dsl_filter(input, schema) is Ok,
    ensures
        schema.filter_fault(dsl_filter(input, schema)->Ok_0) is None,
        schema.allows(dsl_filter(input, schema)->Ok_0),
{
    schema.lemma_faultless_filter_is_allowed(dsl_filter(input, schema)->Ok_0);
}

proof fn lemma_split_rejoins(s: Seq<char>, n: nat, delimiter: char)
    requires
        n <= s.len(),
        split_state(s, n, delimiter) is Some,
    ensures
        ({
            let state = split_state(s, n, delimiter)->0;
            joined(state.parts.push(state.current), seq![delimiter]) == s.take(n as int)
        }),
    decreases n,
{
    let d = seq![delimiter];
    let state = split_state(s, n, delimiter)->0;
    let all = state.parts.push(state.current);
    assert(all.drop_last() =~= state.parts);
    if n == 0 {
        assert(joined(all, d) =~= s.take(0));
    } else {
        lemma_split_rejoins(s, (n - 1) as nat, delimiter);
        let before = split_state(s, (n - 1) as nat, delimiter)->0;
        let earlier = before.parts.push(before.current);
        assert(earlier.drop_last() =~= before.parts);
        assert(s.take(n as int) =~= s.take(n - 1).push(s[n - 1]));
        if state.parts.len() > before.parts.len() {
            assert(state.parts == earlier);
            assert(joined(all, d) =~= joined(earlier, d) + d);
        } else {
            assert(state.parts == before.parts);
            assert(joined(all, d) =~= joined(earlier, d).push(s[n - 1]));
        }
    }
}

/// Splitting loses nothing: the parts, joined by the delimiter, are the text.
pub proof fn top_level_parts_rejoin(s: Seq<char>, delimiter: char)
    requires
        top_level(s, delimiter) is Some,
    ensures
        joined(top_level(s, delimiter)->0, seq![delimiter]) == s,
{
    lemma_split_rejoins(s, s.len(), delimiter);
    assert(s.take(s.len() as int) =~= s);
}

impl DslErrorView {
    /// The text that a person reads of the error.
    pub open spec fn message(self) -> Seq<char> {
        match self {
            DslErrorView::Syntax(reason) => "invalid filter syntax: "@ + reason,
            DslErrorView::UnbalancedParentheses => "unbalanced parentheses"@,
            DslErrorView::Validation(fault) => fault.message(),
        }
    }
}

impl DslError {
    /// The text that a person reads of the error.
    pub fn message(&self) -> (text: String)
        ensures
            text@ == self@.message(),
    {
        match self {
            DslError::Syntax(reason) => "invalid filter syntax: ".to_owned().concat(
                reason.as_str(),
            ),
            DslError::UnbalancedParentheses => "unbalanced parentheses".to_owned(),
            DslError::Validation(error) => error.message(),
        }
    }
}

} // verus!
