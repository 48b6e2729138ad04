//! What the string grammar says: every filter has a text, and the text is read back
//! as that filter.
use crate::api_contract::laws::{is_row, lemma_digit_row_is_number, row_value, writes};
use crate::api_contract::list_query::scalar_of;
use crate::api_contract::query::{
    BoolOperator, FilterOperator, FilterTree, ScalarView, SchemaView, ValueView,
};
use crate::query::dsl::{
    dsl_and, dsl_and_parts, dsl_filter, dsl_or, dsl_or_parts, dsl_primary, dsl_scalar, dsl_set,
    inner, operator_from, operator_tokens, split_state, token_at, top_level, DslErrorView,
    SplitState,
};
use crate::scan::stands_at;
use crate::text::{is_blank, is_white, trim_end, trim_start, trimmed};
use vstd::prelude::*;
use vstd::string::*;

verus! {

/// A letter, a digit, an underscore or a point.
pub open spec fn is_field_char(c: char) -> bool {
    'a' <= c <= 'z' || 'A' <= c <= 'Z' || '0' <= c <= '9' || c == '_' || c == '.'
}

/// The name of a field.
pub open spec fn is_field(field: Seq<char>) -> bool {
    field.len() > 0 && forall|i: int| 0 <= i < field.len() ==> is_field_char(#[trigger] field[i])
}

/// Nothing but spaces, or nothing.
pub open spec fn is_gap(gap: Seq<char>) -> bool {
    forall|i: int| 0 <= i < gap.len() ==> #[trigger] gap[i] == ' '
}

/// How the grammar writes an operator.
pub open spec fn sign(operator: FilterOperator) -> Seq<char> {
    match operator {
        FilterOperator::Eq => "="@,
        FilterOperator::Ne => "!="@,
        FilterOperator::Gt => ">"@,
        FilterOperator::Gte => ">="@,
        FilterOperator::Lt => "<"@,
        FilterOperator::Lte => "<="@,
        FilterOperator::Like => "~"@,
        FilterOperator::Ilike => "~~"@,
        FilterOperator::Contains => " contains "@,
        FilterOperator::StartsWith => " startswith "@,
        FilterOperator::EndsWith => " endswith "@,
        FilterOperator::In => "@"@,
        FilterOperator::NotIn => "!@"@,
    }
}

/// The operator is written as a word.
pub open spec fn is_word(operator: FilterOperator) -> bool {
    operator == FilterOperator::Contains || operator == FilterOperator::StartsWith || operator
        == FilterOperator::EndsWith
}

/// The operator takes a set.
pub open spec fn takes_set(operator: FilterOperator) -> bool {
    operator == FilterOperator::In || operator == FilterOperator::NotIn
}

/// How the grammar writes a scalar: a string in single quotes, the rest bare.
pub open spec fn scalar_text(scalar: ScalarView) -> Seq<char> {
    match scalar {
        ScalarView::String(text) => seq!['\''] + text + seq!['\''],
        ScalarView::Number(text) => text,
        ScalarView::Bool(b) => if b {
            "true"@
        } else {
            "false"@
        },
        ScalarView::Null => "null"@,
    }
}

/// The grammar can write the scalar: a string without a quote, a row of digits, a
/// truth value or null.
pub open spec fn is_writable_scalar(scalar: ScalarView) -> bool {
    match scalar {
        ScalarView::String(text) => !text.contains('\''),
        ScalarView::Number(text) => is_row(text),
        _ => true,
    }
}

/// The parts with a separator between each two.
pub open spec fn glued(parts: Seq<Seq<char>>, separator: char) -> Seq<char>
    decreases parts.len(),
{
    if parts.len() == 0 {
        Seq::empty()
    } else if parts.len() == 1 {
        parts[0]
    } else {
        glued(parts.drop_last(), separator) + seq![separator] + parts.last()
    }
}

/// How the grammar writes the items of a set.
pub open spec fn item_texts(scalars: Seq<ScalarView>) -> Seq<Seq<char>> {
    scalars.map_values(|scalar: ScalarView| scalar_text(scalar))
}

/// How the grammar writes a value: a set in parentheses, with commas.
pub open spec fn value_text(value: ValueView) -> Seq<char> {
    match value {
        ValueView::Scalar(scalar) => scalar_text(scalar),
        ValueView::List(scalars) => seq!['('] + glued(item_texts(scalars), ',') + seq![')'],
    }
}

/// The grammar can write the value behind the operator.
pub open spec fn is_writable_value(operator: FilterOperator, value: ValueView) -> bool {
    match value {
        ValueView::Scalar(scalar) => !takes_set(operator) && is_writable_scalar(scalar),
        ValueView::List(scalars) => takes_set(operator) && forall|i: int|
            0 <= i < scalars.len() ==> is_writable_scalar(#[trigger] scalars[i]),
    }
}

/// How the grammar writes a condition, with a gap round the sign or none.
pub open spec fn condition_text(
    field: Seq<char>,
    operator: FilterOperator,
    value: ValueView,
    gap: Seq<char>,
) -> Seq<char> {
    if is_word(operator) {
        field + sign(operator) + gap + value_text(value)
    } else {
        field + gap + sign(operator) + gap + value_text(value)
    }
}

/// The sign between the parts of a group.
pub open spec fn connective(operator: BoolOperator) -> char {
    match operator {
        BoolOperator::And => '&',
        BoolOperator::Or => '|',
    }
}

/// How the grammar writes one part of a group: a conjunction in a disjunction stands
/// bare, for it binds more tightly; any other group stands in parentheses.
pub open spec fn part_text(outer: BoolOperator, tree: FilterTree, gap: Seq<char>) -> Seq<char>
    decreases tree, tree.width() + 1,
{
    match tree {
        FilterTree::Condition { field, operator, value } => condition_text(
            field,
            operator,
            value,
            gap,
        ),
        FilterTree::Group { operator, conditions } => {
            let text = glued(group_parts(tree, conditions.len(), gap), connective(operator));
            if outer == BoolOperator::Or && operator == BoolOperator::And {
                text
            } else {
                seq!['('] + text + seq![')']
            }
        },
    }
}

/// The first `n` parts of a group, with a gap towards each sign.
pub open spec fn group_parts(tree: FilterTree, n: nat, gap: Seq<char>) -> Seq<Seq<char>>
    decreases tree, n,
{
    match tree {
        FilterTree::Group { operator, conditions } if 0 < n <= conditions.len() => {
            let part = part_text(operator, conditions[n - 1], gap);
            let before = if n > 1 {
                gap
            } else {
                Seq::empty()
            };
            let after = if n < conditions.len() {
                gap
            } else {
                Seq::empty()
            };
            group_parts(tree, (n - 1) as nat, gap).push(before + part + after)
        },
        _ => Seq::empty(),
    }
}

/// How the grammar writes a filter.
pub open spec fn filter_text(tree: FilterTree, gap: Seq<char>) -> Seq<char> {
    match tree {
        FilterTree::Condition { field, operator, value } => condition_text(
            field,
            operator,
            value,
            gap,
        ),
        FilterTree::Group { operator, conditions } => glued(
            group_parts(tree, conditions.len(), gap),
            connective(operator),
        ),
    }
}

/// The grammar can write the filter: its fields are names, its values can be
/// written, and its groups have at least two parts.
pub open spec fn is_writable(tree: FilterTree) -> bool
    decreases tree,
{
    match tree {
        FilterTree::Condition { field, operator, value } => is_field(field) && is_writable_value(
            operator,
            value,
        ),
        FilterTree::Group { operator, conditions } => conditions.len() >= 2 && forall|i: int|
            0 <= i < conditions.len() ==> is_writable(#[trigger] conditions[i]),
    }
}

/// The state after reading a text.
spec fn read_all(state: SplitState, text: Seq<char>, delimiter: char) -> Option<SplitState>
    decreases text.len(),
{
    if text.len() == 0 {
        Some(state)
    } else {
        match read_all(state, text.drop_last(), delimiter) {
            None => None,
            Some(before) => before.read(text.last(), delimiter),
        }
    }
}

spec fn start() -> SplitState {
    SplitState { parts: Seq::empty(), current: Seq::empty(), depth: 0, quoted: false }
}

proof fn lemma_read_all(s: Seq<char>, n: nat, delimiter: char)
    requires
        n <= s.len(),
    ensures
        split_state(s, n, delimiter) == read_all(start(), s.take(n as int), delimiter),
    decreases n,
{
    if n > 0 {
        lemma_read_all(s, (n - 1) as nat, delimiter);
        assert(s.take(n as int).drop_last() =~= s.take(n - 1));
    }
}

proof fn lemma_read_concat(state: SplitState, a: Seq<char>, b: Seq<char>, delimiter: char)
    ensures
        read_all(state, a + b, delimiter) == (match read_all(state, a, delimiter) {
            None => None,
            Some(between) => read_all(between, b, delimiter),
        }),
    decreases b.len(),
{
    if b.len() == 0 {
        assert(a + b =~= a);
    } else {
        lemma_read_concat(state, a, b.drop_last(), delimiter);
        assert((a + b).drop_last() =~= a + b.drop_last());
        assert((a + b).last() == b.last());
    }
}

spec fn longer(state: SplitState, text: Seq<char>) -> SplitState {
    SplitState { current: state.current + text, ..state }
}

/// Outside quotes, and in at least `depth` parentheses, the text is read as part of
/// what stands before it.
spec fn is_steady(text: Seq<char>, delimiter: char, depth: nat) -> bool {
    forall|state: SplitState|
        !state.quoted && state.depth >= depth ==> #[trigger] read_all(state, text, delimiter)
            == Some(longer(state, text))
}

spec fn is_plain(text: Seq<char>, delimiter: char) -> bool {
    forall|i: int|
        0 <= i < text.len() ==> #[trigger] text[i] != '\'' && text[i] != '(' && text[i] != ')'
            && text[i] != delimiter
}

proof fn lemma_plain(text: Seq<char>, delimiter: char)
    requires
        is_plain(text, delimiter),
    ensures
        is_steady(text, delimiter, 0),
    decreases text.len(),
{
    if text.len() > 0 {
        let front = text.drop_last();
        assert forall|i: int| 0 <= i < front.len() implies #[trigger] front[i] != '\'' && front[i]
            != '(' && front[i] != ')' && front[i] != delimiter by {
            assert(front[i] == text[i]);
        }
        lemma_plain(front, delimiter);
        assert(text[text.len() - 1] != delimiter);
        assert forall|state: SplitState| !state.quoted && state.depth >= 0 implies #[trigger] read_all(
            state,
            text,
            delimiter,
        ) == Some(longer(state, text)) by {
            assert(read_all(state, front, delimiter) == Some(longer(state, front)));
            assert((state.current + front).push(text.last()) =~= state.current + text);
        }
    } else {
        assert forall|state: SplitState| !state.quoted && state.depth >= 0 implies #[trigger] read_all(
            state,
            text,
            delimiter,
        ) == Some(longer(state, text)) by {
            assert(state.current + text =~= state.current);
        }
    }
}

proof fn lemma_steady_concat(a: Seq<char>, b: Seq<char>, delimiter: char, depth: nat)
    requires
        is_steady(a, delimiter, depth),
        is_steady(b, delimiter, depth),
    ensures
        is_steady(a + b, delimiter, depth),
{
    assert forall|state: SplitState| !state.quoted && state.depth >= depth implies #[trigger] read_all(
        state,
        a + b,
        delimiter,
    ) == Some(longer(state, a + b)) by {
        lemma_read_concat(state, a, b, delimiter);
        assert(read_all(state, a, delimiter) == Some(longer(state, a)));
        let between = longer(state, a);
        assert(read_all(between, b, delimiter) == Some(longer(between, b)));
        assert(state.current + (a + b) =~= (state.current + a) + b);
    }
}

proof fn lemma_read_quoted(state: SplitState, text: Seq<char>, delimiter: char)
    requires
        state.quoted,
        !text.contains('\''),
        delimiter != '\'',
    ensures
        read_all(state, text, delimiter) == Some(longer(state, text)),
    decreases text.len(),
{
    if text.len() > 0 {
        let front = text.drop_last();
        assert(text.contains(text.last()));
        assert forall|i: int| 0 <= i < front.len() implies front[i] != '\'' by {
            assert(text.contains(text[i]));
        }
        lemma_read_quoted(state, front, delimiter);
        assert((state.current + front).push(text.last()) =~= state.current + text);
    } else {
        assert(state.current + text =~= state.current);
    }
}

proof fn lemma_one(state: SplitState, c: char, delimiter: char)
    ensures
        read_all(state, seq![c], delimiter) == state.read(c, delimiter),
{
    let one = seq![c];
    assert(one.drop_last() =~= Seq::empty());
    assert(read_all(state, one.drop_last(), delimiter) == Some(state));
}

proof fn lemma_quoted_steady(text: Seq<char>, delimiter: char)
    requires
        !text.contains('\''),
        delimiter != '\'',
    ensures
        is_steady(seq!['\''] + text + seq!['\''], delimiter, 0),
{
    let quote = seq!['\''];
    let all = quote + text + quote;
    assert forall|state: SplitState| !state.quoted && state.depth >= 0 implies #[trigger] read_all(
        state,
        all,
        delimiter,
    ) == Some(longer(state, all)) by {
        lemma_read_concat(state, quote + text, quote, delimiter);
        lemma_read_concat(state, quote, text, delimiter);
        lemma_one(state, '\'', delimiter);
        let opened = SplitState { current: state.current.push('\''), quoted: true, ..state };
        lemma_read_quoted(opened, text, delimiter);
        lemma_one(longer(opened, text), '\'', delimiter);
        assert((state.current.push('\'') + text).push('\'') =~= state.current + all);
    }
}

proof fn lemma_paren_steady(text: Seq<char>, delimiter: char)
    requires
        is_steady(text, delimiter, 1),
        delimiter != '(' && delimiter != ')' && delimiter != '\'',
    ensures
        is_steady(seq!['('] + text + seq![')'], delimiter, 0),
{
    let all = seq!['('] + text + seq![')'];
    assert forall|state: SplitState| !state.quoted && state.depth >= 0 implies #[trigger] read_all(
        state,
        all,
        delimiter,
    ) == Some(longer(state, all)) by {
        lemma_read_concat(state, seq!['('] + text, seq![')'], delimiter);
        lemma_read_concat(state, seq!['('], text, delimiter);
        lemma_one(state, '(', delimiter);
        let opened = SplitState {
            current: state.current.push('('),
            depth: state.depth + 1,
            ..state
        };
        assert(read_all(opened, text, delimiter) == Some(longer(opened, text)));
        lemma_one(longer(opened, text), ')', delimiter);
        assert((state.current.push('(') + text).push(')') =~= state.current + all);
    }
}

proof fn lemma_deeper(text: Seq<char>, delimiter: char)
    requires
        is_steady(text, delimiter, 0),
    ensures
        is_steady(text, delimiter, 1),
{
    assert forall|state: SplitState| !state.quoted && state.depth >= 1 implies #[trigger] read_all(
        state,
        text,
        delimiter,
    ) == Some(longer(state, text)) by {}
}

/// In parentheses the delimiter itself is read as part of what stands before it.
proof fn lemma_delimiter_deeper(c: char, delimiter: char)
    requires
        c != '(' && c != ')' && c != '\'',
    ensures
        is_steady(seq![c], delimiter, 1),
{
    let one = seq![c];
    assert forall|state: SplitState| !state.quoted && state.depth >= 1 implies #[trigger] read_all(
        state,
        one,
        delimiter,
    ) == Some(longer(state, one)) by {
        lemma_one(state, c, delimiter);
        assert(state.current.push(c) =~= state.current + one);
    }
}

/// Steady parts, glued by a sign that is no matter to them.
proof fn lemma_glued_steady(parts: Seq<Seq<char>>, separator: char, delimiter: char, depth: nat)
    requires
        forall|k: int| 0 <= k < parts.len() ==> is_steady(#[trigger] parts[k], delimiter, depth),
        is_steady(seq![separator], delimiter, depth),
    ensures
        is_steady(glued(parts, separator), delimiter, depth),
    decreases parts.len(),
{
    if parts.len() == 0 {
        let none = Seq::<char>::empty();
        assert forall|state: SplitState| !state.quoted && state.depth >= depth implies #[trigger] read_all(
            state,
            none,
            delimiter,
        ) == Some(longer(state, none)) by {
            assert(state.current + none =~= state.current);
        }
        assert(glued(parts, separator) =~= none);
    } else if parts.len() == 1 {
        assert(is_steady(parts[0], delimiter, depth));
    } else {
        let fewer = parts.drop_last();
        assert forall|k: int| 0 <= k < fewer.len() implies is_steady(
            #[trigger] fewer[k],
            delimiter,
            depth,
        ) by {
            assert(fewer[k] == parts[k]);
        }
        lemma_glued_steady(fewer, separator, delimiter, depth);
        assert(is_steady(parts[parts.len() - 1], delimiter, depth));
        lemma_steady_concat(glued(fewer, separator), seq![separator], delimiter, depth);
        lemma_steady_concat(
            glued(fewer, separator) + seq![separator],
            parts.last(),
            delimiter,
            depth,
        );
    }
}

proof fn lemma_read_glued(parts: Seq<Seq<char>>, delimiter: char)
    requires
        parts.len() > 0,
        delimiter != '(' && delimiter != ')' && delimiter != '\'',
        forall|k: int| 0 <= k < parts.len() ==> is_steady(#[trigger] parts[k], delimiter, 0),
    ensures
        read_all(start(), glued(parts, delimiter), delimiter) == Some(
            SplitState {
                parts: parts.drop_last(),
                current: parts.last(),
                depth: 0,
                quoted: false,
            },
        ),
    decreases parts.len(),
{
    let last = parts.last();
    assert(is_steady(parts[parts.len() - 1], delimiter, 0));
    if parts.len() == 1 {
        assert(read_all(start(), last, delimiter) == Some(longer(start(), last)));
        assert(start().current + last =~= last);
        assert(parts.drop_last() =~= Seq::empty());
    } else {
        let fewer = parts.drop_last();
        assert forall|k: int| 0 <= k < fewer.len() implies is_steady(
            #[trigger] fewer[k],
            delimiter,
            0,
        ) by {
            assert(fewer[k] == parts[k]);
        }
        lemma_read_glued(fewer, delimiter);
        let front = glued(fewer, delimiter);
        lemma_read_concat(start(), front + seq![delimiter], last, delimiter);
        lemma_read_concat(start(), front, seq![delimiter], delimiter);
        let before = read_all(start(), front, delimiter)->0;
        lemma_one(before, delimiter, delimiter);
        let between = SplitState {
            parts: fewer.drop_last().push(fewer.last()),
            current: Seq::empty(),
            depth: 0,
            quoted: false,
        };
        assert(before.read(delimiter, delimiter) == Some(between));
        assert(read_all(between, last, delimiter) == Some(longer(between, last)));
        assert(between.current + last =~= last);
        assert(fewer.drop_last().push(fewer.last()) =~= fewer);
    }
}

/// Steady parts are found again between the delimiters.
proof fn lemma_split_glued(parts: Seq<Seq<char>>, delimiter: char)
    requires
        parts.len() > 0,
        delimiter != '(' && delimiter != ')' && delimiter != '\'',
        forall|k: int| 0 <= k < parts.len() ==> is_steady(#[trigger] parts[k], delimiter, 0),
    ensures
        top_level(glued(parts, delimiter), delimiter) == Some(parts),
{
    let s = glued(parts, delimiter);
    lemma_read_glued(parts, delimiter);
    lemma_read_all(s, s.len(), delimiter);
    assert(s.take(s.len() as int) =~= s);
    assert(parts.drop_last().push(parts.last()) =~= parts);
}

/// Something can be seen at both ends of the text.
spec fn has_edges(text: Seq<char>) -> bool {
    text.len() > 0 && !is_white(text[0]) && !is_white(text.last())
}

proof fn lemma_trim_gaps(before: Seq<char>, text: Seq<char>, after: Seq<char>)
    requires
        is_gap(before),
        is_gap(after),
        has_edges(text),
    ensures
        trimmed(before + text + after) == text,
    decreases before.len() + after.len(),
{
    let s = before + text + after;
    if before.len() > 0 {
        assert(before[0] == ' ');
        assert(s.first() == ' ');
        let fewer = before.drop_first();
        assert forall|i: int| 0 <= i < fewer.len() implies #[trigger] fewer[i] == ' ' by {
            assert(fewer[i] == before[i + 1]);
        }
        lemma_trim_gaps(fewer, text, after);
        assert(s.drop_first() =~= fewer + text + after);
    } else {
        assert(s =~= text + after);
        assert(s.first() == text[0]);
        assert(trim_start(s) == s);
        lemma_trim_end_gap(text, after);
    }
}

proof fn lemma_trim_end_gap(text: Seq<char>, after: Seq<char>)
    requires
        is_gap(after),
        has_edges(text),
    ensures
        trim_end(text + after) == text,
    decreases after.len(),
{
    let s = text + after;
    if after.len() > 0 {
        assert(after[after.len() - 1] == ' ');
        let fewer = after.drop_last();
        assert forall|i: int| 0 <= i < fewer.len() implies #[trigger] fewer[i] == ' ' by {
            assert(fewer[i] == after[i]);
        }
        lemma_trim_end_gap(text, fewer);
        assert(s.drop_last() =~= text + fewer);
    } else {
        assert(s =~= text);
    }
}

proof fn lemma_trim_edges(text: Seq<char>)
    requires
        has_edges(text),
    ensures
        trimmed(text) == text,
{
    let none = Seq::<char>::empty();
    lemma_trim_gaps(none, text, none);
    assert(none + text + none =~= text);
}

proof fn lemma_words()
    ensures
        "true"@ == seq!['t', 'r', 'u', 'e'],
        "false"@ == seq!['f', 'a', 'l', 's', 'e'],
        "null"@ == seq!['n', 'u', 'l', 'l'],
{
    reveal_strlit("true");
    reveal_strlit("false");
    reveal_strlit("null");
    assert("true"@ =~= seq!['t', 'r', 'u', 'e']);
    assert("false"@ =~= seq!['f', 'a', 'l', 's', 'e']);
    assert("null"@ =~= seq!['n', 'u', 'l', 'l']);
}

/// The written scalar is read back, holds together, and starts as a value does.
proof fn lemma_scalar(scalar: ScalarView, delimiter: char)
    requires
        is_writable_scalar(scalar),
        delimiter == '&' || delimiter == '|' || delimiter == ',',
    ensures
        dsl_scalar(scalar_text(scalar)) == scalar,
        is_steady(scalar_text(scalar), delimiter, 0),
        has_edges(scalar_text(scalar)),
        starts_value(scalar_text(scalar)),
{
    lemma_words();
    let text = scalar_text(scalar);
    match scalar {
        ScalarView::String(content) => {
            lemma_quoted_steady(content, delimiter);
            assert(inner(text) =~= content);
        },
        ScalarView::Number(row) => {
            assert('0' <= row[0] <= '9' && '0' <= row[row.len() - 1] <= '9');
            assert forall|i: int| 0 <= i < row.len() implies #[trigger] row[i] != '\'' && row[i]
                != '(' && row[i] != ')' && row[i] != delimiter by {
                assert('0' <= row[i] <= '9');
            }
            lemma_plain(row, delimiter);
            assert(writes(row, row_value(row)));
            lemma_digit_row_is_number(row);
        },
        ScalarView::Bool(b) => {
            assert(is_plain(text, delimiter));
            lemma_plain(text, delimiter);
        },
        ScalarView::Null => {
            assert(is_plain(text, delimiter));
            lemma_plain(text, delimiter);
        },
    }
}

/// The text starts as a value does: with a quote, a letter, a digit or a parenthesis.
spec fn starts_value(text: Seq<char>) -> bool {
    text.len() > 0 && (text[0] == '\'' || text[0] == '(' || is_field_char(text[0]))
}

proof fn lemma_items(scalars: Seq<ScalarView>, delimiter: char)
    requires
        forall|i: int| 0 <= i < scalars.len() ==> is_writable_scalar(#[trigger] scalars[i]),
        delimiter == '&' || delimiter == '|',
    ensures
        dsl_set(value_text(ValueView::List(scalars))) == Ok::<Seq<ScalarView>, DslErrorView>(
            scalars,
        ),
        is_steady(value_text(ValueView::List(scalars)), delimiter, 0),
{
    let items = item_texts(scalars);
    let content = glued(items, ',');
    let raw = value_text(ValueView::List(scalars));
    assert forall|k: int| 0 <= k < items.len() implies is_steady(#[trigger] items[k], ',', 0)
        && is_steady(items[k], delimiter, 1) && trimmed(items[k]) == items[k] && dsl_scalar(items[k])
        == scalars[k] by {
        lemma_scalar(scalars[k], ',');
        lemma_scalar(scalars[k], delimiter);
        lemma_deeper(items[k], delimiter);
        lemma_trim_edges(items[k]);
    }
    lemma_delimiter_deeper(',', delimiter);
    lemma_glued_steady(items, ',', delimiter, 1);
    lemma_paren_steady(content, delimiter);
    assert(inner(raw) =~= content);
    if scalars.len() == 0 {
        assert(content =~= Seq::empty());
        assert(scalars =~= Seq::empty());
    } else {
        lemma_split_glued(items, ',');
        lemma_scalar(scalars[0], ',');
        lemma_glued_front(items, ',');
        assert(content[0] == items[0][0]);
        assert(!is_blank(content));
        assert(items.map_values(|item: Seq<char>| dsl_scalar(trimmed(item))) =~= scalars);
    }
}

proof fn lemma_glued_head(parts: Seq<Seq<char>>, separator: char)
    requires
        parts.len() > 0,
        parts[0].len() > 0,
        parts.last().len() > 0,
    ensures
        glued(parts, separator).len() > 0,
        glued(parts, separator)[0] == parts[0][0],
        glued(parts, separator).last() == parts.last().last(),
    decreases parts.len(),
{
    if parts.len() > 1 {
        let fewer = parts.drop_last();
        lemma_glued_front(fewer, separator);
        assert(fewer[0] == parts[0]);
    }
}

proof fn lemma_glued_front(parts: Seq<Seq<char>>, separator: char)
    requires
        parts.len() > 0,
        parts[0].len() > 0,
    ensures
        glued(parts, separator).len() > 0,
        glued(parts, separator)[0] == parts[0][0],
    decreases parts.len(),
{
    if parts.len() > 1 {
        let fewer = parts.drop_last();
        lemma_glued_front(fewer, separator);
        assert(fewer[0] == parts[0]);
    }
}

proof fn lemma_value(operator: FilterOperator, value: ValueView, delimiter: char)
    requires
        is_writable_value(operator, value),
        delimiter == '&' || delimiter == '|',
    ensures
        is_steady(value_text(value), delimiter, 0),
        has_edges(value_text(value)),
        starts_value(value_text(value)),
{
    match value {
        ValueView::Scalar(scalar) => {
            lemma_scalar(scalar, delimiter);
        },
        ValueView::List(scalars) => {
            lemma_items(scalars, delimiter);
        },
    }
}

proof fn lemma_stands_char(s: Seq<char>, at: int, pattern: Seq<char>, k: int)
    requires
        stands_at(s, at, pattern),
        0 <= k < pattern.len(),
    ensures
        s[at + k] == pattern[k],
{
    assert(s.subrange(at, at + pattern.len())[k] == pattern[k]);
}

proof fn lemma_signs()
    ensures
        " contains "@ == seq![' ', 'c', 'o', 'n', 't', 'a', 'i', 'n', 's', ' '],
        " startswith "@ == seq![' ', 's', 't', 'a', 'r', 't', 's', 'w', 'i', 't', 'h', ' '],
        " endswith "@ == seq![' ', 'e', 'n', 'd', 's', 'w', 'i', 't', 'h', ' '],
        "!@"@ == seq!['!', '@'],
        ">="@ == seq!['>', '='],
        "<="@ == seq!['<', '='],
        "!="@ == seq!['!', '='],
        "~~"@ == seq!['~', '~'],
        "@"@ == seq!['@'],
        "~"@ == seq!['~'],
        ">"@ == seq!['>'],
        "<"@ == seq!['<'],
        "="@ == seq!['='],
{
    reveal_strlit(" contains ");
    reveal_strlit(" startswith ");
    reveal_strlit(" endswith ");
    reveal_strlit("!@");
    reveal_strlit(">=");
    reveal_strlit("<=");
    reveal_strlit("!=");
    reveal_strlit("~~");
    reveal_strlit("@");
    reveal_strlit("~");
    reveal_strlit(">");
    reveal_strlit("<");
    reveal_strlit("=");
    assert(" contains "@ =~= seq![' ', 'c', 'o', 'n', 't', 'a', 'i', 'n', 's', ' ']);
    assert(" startswith "@ =~= seq![
        ' ', 's', 't', 'a', 'r', 't', 's', 'w', 'i', 't', 'h', ' ',
    ]);
    assert(" endswith "@ =~= seq![' ', 'e', 'n', 'd', 's', 'w', 'i', 't', 'h', ' ']);
    assert("!@"@ =~= seq!['!', '@']);
    assert(">="@ =~= seq!['>', '=']);
    assert("<="@ =~= seq!['<', '=']);
    assert("!="@ =~= seq!['!', '=']);
    assert("~~"@ =~= seq!['~', '~']);
    assert("@"@ =~= seq!['@']);
    assert("~"@ =~= seq!['~']);
    assert(">"@ =~= seq!['>']);
    assert("<"@ =~= seq!['<']);
    assert("="@ =~= seq!['=']);
}

/// Which characters start a sign.
spec fn starts_sign(c: char) -> bool {
    c == ' ' || c == '!' || c == '>' || c == '<' || c == '~' || c == '@' || c == '='
}

/// No sign stands where none starts, or at a space that is followed by no word.
proof fn lemma_no_token(s: Seq<char>, i: int)
    requires
        0 <= i < s.len(),
        !starts_sign(s[i]) || (s[i] == ' ' && i + 1 < s.len() && s[i + 1] != 'c' && s[i + 1] != 's'
            && s[i + 1] != 'e'),
    ensures
        token_at(operator_tokens(), 0, s, i) is None,
{
    lemma_signs();
    reveal_with_fuel(token_at, 14);
    let tokens = operator_tokens();
    assert forall|k: int| 0 <= k < tokens.len() implies !stands_at(s, i, #[trigger] tokens[k].0) by {
        let pattern = tokens[k].0;
        if stands_at(s, i, pattern) {
            lemma_stands_char(s, i, pattern, 0);
            if pattern.len() > 2 {
                lemma_stands_char(s, i, pattern, 1);
            }
        }
    }
    lemma_no_token_from(tokens, 0, s, i);
}

proof fn lemma_no_token_from(
    tokens: Seq<(Seq<char>, FilterOperator)>,
    k: int,
    s: Seq<char>,
    i: int,
)
    requires
        0 <= k <= tokens.len(),
        forall|k: int| 0 <= k < tokens.len() ==> !stands_at(s, i, #[trigger] tokens[k].0),
    ensures
        token_at(tokens, k, s, i) is None,
    decreases tokens.len() - k,
{
    if k < tokens.len() {
        assert(!stands_at(s, i, tokens[k].0));
        lemma_no_token_from(tokens, k + 1, s, i);
    }
}

proof fn lemma_skip_tokens(tokens: Seq<(Seq<char>, FilterOperator)>, k: int, s: Seq<char>, i: int)
    requires
        0 <= k < tokens.len(),
        forall|j: int| 0 <= j < k ==> !stands_at(s, i, #[trigger] tokens[j].0),
        stands_at(s, i, tokens[k].0),
    ensures
        token_at(tokens, 0, s, i) == Some((tokens[k].0.len() as int, tokens[k].1)),
{
    lemma_skip_tokens_from(tokens, 0, k, s, i);
}

proof fn lemma_skip_tokens_from(
    tokens: Seq<(Seq<char>, FilterOperator)>,
    from: int,
    k: int,
    s: Seq<char>,
    i: int,
)
    requires
        0 <= from <= k < tokens.len(),
        forall|j: int| 0 <= j < k ==> !stands_at(s, i, #[trigger] tokens[j].0),
        stands_at(s, i, tokens[k].0),
    ensures
        token_at(tokens, from, s, i) == Some((tokens[k].0.len() as int, tokens[k].1)),
    decreases k - from,
{
    if from < k {
        assert(!stands_at(s, i, tokens[from].0));
        lemma_skip_tokens_from(tokens, from + 1, k, s, i);
    }
}

/// Where a sign stands, followed by a gap or a value, it is that sign and no other.
proof fn lemma_token(s: Seq<char>, i: int, operator: FilterOperator)
    requires
        stands_at(s, i, sign(operator)),
        i + sign(operator).len() < s.len(),
        ({
            let next = s[i + sign(operator).len()];
            next == ' ' || next == '\'' || next == '(' || is_field_char(next)
        }),
    ensures
        token_at(operator_tokens(), 0, s, i) == Some((sign(operator).len() as int, operator)),
{
    lemma_signs();
    let tokens = operator_tokens();
    let k: int = match operator {
        FilterOperator::Contains => 0,
        FilterOperator::StartsWith => 1,
        FilterOperator::EndsWith => 2,
        FilterOperator::NotIn => 3,
        FilterOperator::Gte => 4,
        FilterOperator::Lte => 5,
        FilterOperator::Ne => 6,
        FilterOperator::Ilike => 7,
        FilterOperator::In => 8,
        FilterOperator::Like => 9,
        FilterOperator::Gt => 10,
        FilterOperator::Lt => 11,
        FilterOperator::Eq => 12,
    };
    let own = sign(operator);
    lemma_stands_char(s, i, own, 0);
    if own.len() > 1 {
        lemma_stands_char(s, i, own, 1);
    }
    assert(tokens[k] == (own, operator));
    assert forall|j: int| 0 <= j < k implies !stands_at(s, i, #[trigger] tokens[j].0) by {
        let other = tokens[j].0;
        if stands_at(s, i, other) {
            lemma_stands_char(s, i, other, 0);
            if other.len() > 1 {
                lemma_stands_char(s, i, other, 1);
            }
        }
    }
    lemma_skip_tokens(tokens, k, s, i);
}

/// The search for the operator passes over a field and a gap.
proof fn lemma_operator_from(s: Seq<char>, from: int, at: int, operator: FilterOperator)
    requires
        0 <= from <= at < s.len(),
        forall|i: int|
            from <= i < at ==> (is_field_char(#[trigger] s[i]) || (s[i] == ' ' && s[i + 1] != 'c'
                && s[i + 1] != 's' && s[i + 1] != 'e')),
        s[at] != '\'',
        token_at(operator_tokens(), 0, s, at) == Some((sign(operator).len() as int, operator)),
    ensures
        operator_from(s, from, false) == Some((at, sign(operator).len() as int, operator)),
    decreases at - from,
{
    if from < at {
        assert(is_field_char(s[from]) || s[from] == ' ');
        lemma_no_token(s, from);
        lemma_operator_from(s, from + 1, at, operator);
    }
}

proof fn lemma_sign_head(operator: FilterOperator)
    ensures
        sign(operator).len() > 0,
        starts_sign(sign(operator)[0]),
        !is_word(operator) ==> sign(operator)[0] != ' ',
        forall|d: char|
            d == '&' || d == '|' ==> #[trigger] is_plain(sign(operator), d),
{
    lemma_signs();
}

proof fn lemma_gap_plain(gap: Seq<char>, delimiter: char)
    requires
        is_gap(gap),
        delimiter != ' ',
    ensures
        is_steady(gap, delimiter, 0),
{
    assert forall|i: int| 0 <= i < gap.len() implies #[trigger] gap[i] != '\'' && gap[i] != '('
        && gap[i] != ')' && gap[i] != delimiter by {
        assert(gap[i] == ' ');
    }
    lemma_plain(gap, delimiter);
}

/// A written condition is read back, and holds together.
proof fn lemma_condition(
    field: Seq<char>,
    operator: FilterOperator,
    value: ValueView,
    gap: Seq<char>,
)
    requires
        is_field(field),
        is_writable_value(operator, value),
        is_gap(gap),
    ensures
        ({
            let text = condition_text(field, operator, value, gap);
            let tree = FilterTree::Condition { field, operator, value };
            &&& dsl_primary(text) == Ok::<FilterTree, DslErrorView>(tree)
            &&& is_steady(text, '&', 0)
            &&& is_steady(text, '|', 0)
            &&& has_edges(text)
        }),
{
    let text = condition_text(field, operator, value, gap);
    let lead = if is_word(operator) {
        Seq::<char>::empty()
    } else {
        gap
    };
    let own = sign(operator);
    let raw = value_text(value);
    let at = (field.len() + lead.len()) as int;
    assert(text =~= field + lead + own + gap + raw);
    lemma_sign_head(operator);
    lemma_value(operator, value, '&');
    lemma_value(operator, value, '|');
    assert forall|d: char| d == '&' || d == '|' implies #[trigger] is_steady(text, d, 0) by {
        assert forall|i: int| 0 <= i < field.len() implies #[trigger] field[i] != '\'' && field[i]
            != '(' && field[i] != ')' && field[i] != d by {
            assert(is_field_char(field[i]));
        }
        lemma_plain(field, d);
        assert(is_gap(lead));
        lemma_gap_plain(lead, d);
        lemma_gap_plain(gap, d);
        assert(is_plain(own, d));
        lemma_plain(own, d);
        lemma_steady_concat(field, lead, d, 0);
        lemma_steady_concat(field + lead, own, d, 0);
        lemma_steady_concat(field + lead + own, gap, d, 0);
        lemma_steady_concat(field + lead + own + gap, raw, d, 0);
    }
    assert(is_field_char(field[0]) && is_field_char(field[field.len() - 1]));
    assert(text[0] == field[0]);
    assert(text.last() == raw.last());
    assert(text.subrange(at, at + own.len()) =~= own);
    assert(stands_at(text, at, own));
    assert(text[at] == own[0]);
    let next = text[at + own.len()];
    assert(next == (if gap.len() > 0 {
        gap[0]
    } else {
        raw[0]
    }));
    lemma_token(text, at, operator);
    assert forall|i: int| 0 <= i < at implies (is_field_char(#[trigger] text[i]) || (text[i] == ' '
        && text[i + 1] != 'c' && text[i + 1] != 's' && text[i + 1] != 'e')) by {
        if i < field.len() {
            assert(text[i] == field[i]);
        } else {
            assert(text[i] == lead[i - field.len()]);
            if i + 1 < at {
                assert(text[i + 1] == lead[i + 1 - field.len()]);
            }
        }
    }
    lemma_operator_from(text, 0, at, operator);
    assert(text.take(at) =~= Seq::<char>::empty() + field + lead);
    lemma_trim_gaps(Seq::empty(), field, lead);
    assert(text.skip(at + own.len()) =~= gap + raw + Seq::<char>::empty());
    lemma_trim_gaps(gap, raw, Seq::empty());
    match value {
        ValueView::Scalar(scalar) => {
            lemma_scalar(scalar, '&');
        },
        ValueView::List(scalars) => {
            lemma_items(scalars, '&');
        },
    }
}

proof fn lemma_single(text: Seq<char>, delimiter: char)
    requires
        is_steady(text, delimiter, 0),
        delimiter == '&' || delimiter == '|',
    ensures
        top_level(text, delimiter) == Some(seq![text]),
{
    let parts = seq![text];
    assert forall|k: int| 0 <= k < parts.len() implies is_steady(
        #[trigger] parts[k],
        delimiter,
        0,
    ) by {}
    lemma_split_glued(parts, delimiter);
}

/// A written part of a group is read back, and holds together.
proof fn lemma_part(outer: BoolOperator, tree: FilterTree, gap: Seq<char>)
    requires
        is_writable(tree),
        is_gap(gap),
    ensures
        ({
            let text = part_text(outer, tree, gap);
            &&& has_edges(text)
            &&& is_steady(text, '|', 0)
            &&& is_steady(text, '&', 1)
            &&& outer == BoolOperator::And ==> is_steady(text, '&', 0) && dsl_primary(text) == Ok::<
                FilterTree,
                DslErrorView,
            >(tree)
            &&& outer == BoolOperator::Or ==> dsl_and(text) == Ok::<FilterTree, DslErrorView>(tree)
        }),
    decreases tree, 3nat, 0nat,
{
    let text = part_text(outer, tree, gap);
    match tree {
        FilterTree::Condition { field, operator, value } => {
            lemma_condition(field, operator, value, gap);
            lemma_deeper(text, '&');
            lemma_single(text, '&');
            lemma_trim_edges(text);
        },
        FilterTree::Group { operator, conditions } => {
            lemma_group(tree, gap);
            let content = filter_text(tree, gap);
            if !(outer == BoolOperator::Or && operator == BoolOperator::And) {
                lemma_paren_steady(content, '&');
                lemma_paren_steady(content, '|');
                lemma_deeper(text, '&');
                lemma_single(text, '&');
                lemma_trim_edges(text);
                lemma_trim_edges(content);
                assert(inner(text) =~= content);
            }
        },
    }
}

/// A written group is read back, and holds together.
proof fn lemma_group(tree: FilterTree, gap: Seq<char>)
    requires
        is_writable(tree),
        is_gap(gap),
        tree is Group,
    ensures
        ({
            let text = filter_text(tree, gap);
            &&& has_edges(text)
            &&& is_steady(text, '&', 1)
            &&& is_steady(text, '|', 1)
            &&& dsl_or(text) == Ok::<FilterTree, DslErrorView>(tree)
            &&& tree->Group_operator == BoolOperator::And ==> is_steady(text, '|', 0) && dsl_and(
                text,
            ) == Ok::<FilterTree, DslErrorView>(tree)
        }),
    decreases tree, 2nat, 0nat,
{
    let operator = tree->Group_operator;
    let conditions = tree->Group_conditions;
    let n = conditions.len();
    let parts = group_parts(tree, n, gap);
    let text = filter_text(tree, gap);
    let c = connective(operator);
    lemma_parts(tree, n, gap);
    assert forall|k: int| 0 <= k < parts.len() implies is_steady(#[trigger] parts[k], c, 0)
        && is_steady(parts[k], '&', 1) && is_steady(parts[k], '|', 0) by {}
    lemma_delimiter_deeper(c, '&');
    lemma_glued_steady(parts, c, '&', 1);
    lemma_split_glued(parts, c);
    lemma_glued_head(parts, c);
    if operator == BoolOperator::And {
        assert(is_plain(seq![c], '|'));
        lemma_plain(seq![c], '|');
        lemma_glued_steady(parts, c, '|', 0);
        lemma_deeper(text, '|');
        lemma_single(text, '|');
        lemma_trim_edges(text);
        lemma_and_parts(tree, n, gap);
        assert(conditions.take(n as int) =~= conditions);
    } else {
        assert forall|k: int| 0 <= k < parts.len() implies is_steady(#[trigger] parts[k], '|', 1) by {
            lemma_deeper(parts[k], '|');
        }
        lemma_delimiter_deeper(c, '|');
        lemma_glued_steady(parts, c, '|', 1);
        lemma_or_parts(tree, n, gap);
        assert(conditions.take(n as int) =~= conditions);
    }
}

/// The parts of a group hold together, and each is read back once its gaps are off.
proof fn lemma_parts(tree: FilterTree, n: nat, gap: Seq<char>)
    requires
        is_writable(tree),
        is_gap(gap),
        tree is Group,
        n <= tree->Group_conditions.len(),
    ensures
        ({
            let parts = group_parts(tree, n, gap);
            let operator = tree->Group_operator;
            &&& parts.len() == n
            &&& forall|k: int|
                0 <= k < n ==> is_steady(#[trigger] parts[k], connective(operator), 0) && is_steady(
                    parts[k],
                    '&',
                    1,
                ) && is_steady(parts[k], '|', 0) && trimmed(parts[k]) == part_text(
                    operator,
                    tree->Group_conditions[k],
                    gap,
                )
            &&& n > 0 ==> has_edges_start(parts[0])
            &&& n > 0 && n == tree->Group_conditions.len() ==> parts.last().len() > 0 && !is_white(
                parts.last().last(),
            )
        }),
    decreases tree, 0nat, n,
{
    if n > 0 {
        lemma_parts(tree, (n - 1) as nat, gap);
        let operator = tree->Group_operator;
        let child = tree->Group_conditions[n - 1];
        let part = part_text(operator, child, gap);
        let c = connective(operator);
        lemma_part(operator, child, gap);
        let before = if n > 1 {
            gap
        } else {
            Seq::empty()
        };
        let after = if n < tree->Group_conditions.len() {
            gap
        } else {
            Seq::empty()
        };
        assert(is_gap(before) && is_gap(after));
        lemma_trim_gaps(before, part, after);
        lemma_gap_plain(before, '&');
        lemma_gap_plain(before, '|');
        lemma_gap_plain(after, '&');
        lemma_gap_plain(after, '|');
        lemma_deeper(before, '&');
        lemma_deeper(after, '&');
        lemma_steady_concat(before, part, '|', 0);
        lemma_steady_concat(before + part, after, '|', 0);
        lemma_steady_concat(before, part, '&', 1);
        lemma_steady_concat(before + part, after, '&', 1);
        if operator == BoolOperator::And {
            lemma_steady_concat(before, part, '&', 0);
            lemma_steady_concat(before + part, after, '&', 0);
        }
        let parts = group_parts(tree, n, gap);
        let fewer = group_parts(tree, (n - 1) as nat, gap);
        assert(parts == fewer.push(before + part + after));
        assert forall|k: int| 0 <= k < n implies is_steady(#[trigger] parts[k], c, 0) && is_steady(
            parts[k],
            '&',
            1,
        ) && is_steady(parts[k], '|', 0) && trimmed(parts[k]) == part_text(
            operator,
            tree->Group_conditions[k],
            gap,
        ) by {
            if k < n - 1 {
                assert(parts[k] == fewer[k]);
            }
        }
        if n == 1 {
            assert(parts[0][0] == part[0]);
        } else {
            assert(parts[0] == fewer[0]);
        }
    }
}

spec fn has_edges_start(text: Seq<char>) -> bool {
    text.len() > 0 && !is_white(text[0])
}

proof fn lemma_and_parts(tree: FilterTree, n: nat, gap: Seq<char>)
    requires
        is_writable(tree),
        is_gap(gap),
        tree is Group,
        tree->Group_operator == BoolOperator::And,
        n <= tree->Group_conditions.len(),
        top_level(filter_text(tree, gap), '&') == Some(
            group_parts(tree, tree->Group_conditions.len(), gap),
        ),
    ensures
        dsl_and_parts(filter_text(tree, gap), n) == Ok::<Seq<FilterTree>, DslErrorView>(
            tree->Group_conditions.take(n as int),
        ),
    decreases tree, 1nat, n,
{
    let conditions = tree->Group_conditions;
    if n > 0 {
        lemma_and_parts(tree, (n - 1) as nat, gap);
        lemma_parts(tree, conditions.len(), gap);
        let parts = group_parts(tree, conditions.len(), gap);
        assert(is_steady(parts[n - 1], '&', 1));
        lemma_part(BoolOperator::And, conditions[n - 1], gap);
        assert(conditions.take(n as int) =~= conditions.take(n - 1).push(conditions[n - 1]));
    } else {
        assert(conditions.take(0) =~= Seq::empty());
    }
}

proof fn lemma_or_parts(tree: FilterTree, n: nat, gap: Seq<char>)
    requires
        is_writable(tree),
        is_gap(gap),
        tree is Group,
        tree->Group_operator == BoolOperator::Or,
        n <= tree->Group_conditions.len(),
        top_level(filter_text(tree, gap), '|') == Some(
            group_parts(tree, tree->Group_conditions.len(), gap),
        ),
    ensures
        dsl_or_parts(filter_text(tree, gap), n) == Ok::<Seq<FilterTree>, DslErrorView>(
            tree->Group_conditions.take(n as int),
        ),
    decreases tree, 1nat, n,
{
    let conditions = tree->Group_conditions;
    if n > 0 {
        lemma_or_parts(tree, (n - 1) as nat, gap);
        lemma_parts(tree, conditions.len(), gap);
        let parts = group_parts(tree, conditions.len(), gap);
        assert(is_steady(parts[n - 1], '&', 1));
        lemma_part(BoolOperator::Or, conditions[n - 1], gap);
        assert(conditions.take(n as int) =~= conditions.take(n - 1).push(conditions[n - 1]));
    } else {
        assert(conditions.take(0) =~= Seq::empty());
    }
}

/// The grammar reads what it writes: the text of a filter, with any gaps round its
/// signs and its ends, is read as exactly that filter, and refused only where the
/// surface does not allow it. So each sign stands for its own operator, `&` binds more
/// tightly than `|`, and parentheses hold together what stands in them.
pub proof fn written_filters_are_read_back(tree: FilterTree, gap: Seq<char>, schema: SchemaView)
    requires
        is_writable(tree),
        is_gap(gap),
    ensures
        dsl_filter(gap + filter_text(tree, gap) + gap, schema) == (match schema.filter_fault(
            tree,
        ) {
            None => Ok::<FilterTree, DslErrorView>(tree),
            Some(fault) => Err(DslErrorView::Validation(fault)),
        }),
{
    let text = filter_text(tree, gap);
    match tree {
        FilterTree::Condition { field, operator, value } => {
            lemma_condition(field, operator, value, gap);
            lemma_single(text, '|');
            lemma_single(text, '&');
            lemma_trim_edges(text);
        },
        FilterTree::Group { operator, conditions } => {
            lemma_group(tree, gap);
        },
    }
    lemma_trim_gaps(gap, text, gap);
}

/// No two operators have the same sign.
pub proof fn signs_differ(a: FilterOperator, b: FilterOperator)
    requires
        sign(a) == sign(b),
    ensures
        a == b,
{
    lemma_signs();
    let s = sign(a);
    assert(s.len() == sign(b).len());
    assert(s[0] == sign(b)[0]);
    if s.len() > 1 {
        assert(s[1] == sign(b)[1]);
    }
}

} // verus!
