//! What compiled queries mean: which rows a `WHERE` body selects.
//!
//! The SQL that the compiler writes has a small grammar, [`Condition`], with a text
//! and a meaning over rows of its own. Every compiled filter and every keyset
//! condition is the text of such a condition, and it selects the rows that the filter
//! or the cursor speaks of.
use crate::api_contract::page::PageView;
use crate::api_contract::query::{
    BoolOperator, FilterOperator, FilterTree, ListQueryView, ScalarView, SortDirection, SortView,
    ValueView,
};
use crate::query::compile::{compiled, escaped, is_wildcard, joiner, RenderSettings};
use crate::query::dialect::{first_index, Dialect};
use crate::query::fragment::{scalar_params, CompileOptions, ParamView};
use crate::query::cursor::CursorValueView;
use crate::query::keyset::{
    beyond, bound_before, disjunct_holds, disjunct_parts, disjunct_sql, key_params, keyset,
    keyset_holds, keyset_params, keyset_selects_rows_beyond_the_cursor, relation_at,
    resolved_keys, KeyView, Relation,
};
use crate::query::laws::lemma_escaped_head;
use crate::text::{decimal, digits, joined};
use vstd::prelude::*;
use vstd::string::*;

verus! {

/// A comparison of two values of which one stands to the other as `order` to zero.
pub enum Comparison {
    Equal,
    Unequal,
    Greater,
    AtLeast,
    Less,
    AtMost,
}

impl Comparison {
    /// How SQL writes the comparison.
    pub open spec fn symbol(self) -> Seq<char> {
        match self {
            Comparison::Equal => "="@,
            Comparison::Unequal => "<>"@,
            Comparison::Greater => ">"@,
            Comparison::AtLeast => ">="@,
            Comparison::Less => "<"@,
            Comparison::AtMost => "<="@,
        }
    }

    pub open spec fn holds(self, order: int) -> bool {
        match self {
            Comparison::Equal => order == 0,
            Comparison::Unequal => order != 0,
            Comparison::Greater => order > 0,
            Comparison::AtLeast => order >= 0,
            Comparison::Less => order < 0,
            Comparison::AtMost => order <= 0,
        }
    }
}

/// A condition of a `WHERE` body. The parameters that it binds are named by their
/// places in the list of parameters.
pub enum Condition {
    /// The column stands to a parameter in a comparison.
    Compare { column: Seq<char>, comparison: Comparison, at: nat },
    /// The column is null, or is not.
    Null { column: Seq<char>, negated: bool },
    /// The column is equal to one of several values, or differs from all of them.
    Among { column: Seq<char>, negated: bool, at: nat, count: nat },
    /// The column matches a pattern, with or without regard to case; the escape
    /// character may be named.
    Match { column: Seq<char>, folded: bool, escape: bool, at: nat },
    /// Always, or never.
    Constant(bool),
    /// All of the parts, or any of them.
    Group { operator: BoolOperator, parts: Seq<Condition> },
}

/// The placeholder of the parameter at index `index`, counted from one.
pub open spec fn mark(dialect: Dialect, index: nat) -> Seq<char> {
    match dialect {
        Dialect::Postgres => "$"@ + digits(index),
        Dialect::Sqlite => "?"@,
    }
}

/// `count` placeholders with commas between them.
pub open spec fn marks(dialect: Dialect, index: nat, count: nat) -> Seq<char>
    decreases count,
{
    if count == 0 {
        Seq::empty()
    } else if count == 1 {
        mark(dialect, index)
    } else {
        marks(dialect, index, (count - 1) as nat) + ", "@ + mark(
            dialect,
            (index + count - 1) as nat,
        )
    }
}

impl Condition {
    pub open spec fn width(self) -> nat {
        match self {
            Condition::Group { operator, parts } => parts.len(),
            _ => 0,
        }
    }

    /// The SQL text of the condition, where the first parameter has the index `first`.
    pub open spec fn text(self, dialect: Dialect, first: nat) -> Seq<char>
        decreases self, self.width() + 1,
    {
        match self {
            Condition::Compare { column, comparison, at } => column + " "@ + comparison.symbol()
                + " "@ + mark(dialect, first + at),
            Condition::Null { column, negated } => column + (if negated {
                " IS NOT NULL"@
            } else {
                " IS NULL"@
            }),
            Condition::Among { column, negated, at, count } => match dialect {
                Dialect::Postgres => column + (if negated {
                    " != ALL("@
                } else {
                    " = ANY("@
                }) + mark(dialect, first + at) + ")"@,
                Dialect::Sqlite => column + (if negated {
                    " NOT IN ("@
                } else {
                    " IN ("@
                }) + marks(dialect, first + at, count) + ")"@,
            },
            Condition::Match { column, folded, escape, at } => column + (if folded && dialect
                == Dialect::Postgres {
                " ILIKE "@
            } else {
                " LIKE "@
            }) + mark(dialect, first + at) + (if escape {
                " ESCAPE '\\'"@
            } else {
                Seq::empty()
            }),
            Condition::Constant(always) => if always {
                "1 = 1"@
            } else {
                "1 = 0"@
            },
            Condition::Group { operator, parts } => self.text_of_parts(parts.len(), dialect, first),
        }
    }

    /// The text of the first `n` parts of a group: a group inside it stands in
    /// parentheses.
    pub open spec fn text_of_parts(self, n: nat, dialect: Dialect, first: nat) -> Seq<char>
        decreases self, n,
    {
        match self {
            Condition::Group { operator, parts } if 0 < n <= parts.len() => {
                let part = parts[n - 1];
                let text = part.text(dialect, first);
                let whole = if part is Group {
                    "("@ + text + ")"@
                } else {
                    text
                };
                if n == 1 {
                    whole
                } else {
                    self.text_of_parts((n - 1) as nat, dialect, first) + (match operator {
                        BoolOperator::And => " AND "@,
                        BoolOperator::Or => " OR "@,
                    }) + whole
                }
            },
            _ => Seq::empty(),
        }
    }

    /// The condition holds of a row, with the parameters bound.
    pub open spec fn holds(self, params: Seq<ParamView>, dialect: Dialect, row: Row) -> bool
        decreases self,
    {
        match self {
            Condition::Compare { column, comparison, at } => match (row.order)(
                column,
                params[at as int],
            ) {
                Some(order) => comparison.holds(order),
                None => false,
            },
            Condition::Null { column, negated } => (row.null)(column) != negated,
            Condition::Among { column, negated, at, count } => {
                let values = match dialect {
                    Dialect::Postgres => params[at as int]->Array_0,
                    Dialect::Sqlite => params.subrange(at as int, (at + count) as int),
                };
                if negated {
                    differs(row, column, values)
                } else {
                    is_among(row, column, values)
                }
            },
            Condition::Match { column, folded, escape, at } => match (
                (row.text)(column),
                params[at as int],
            ) {
                (Some(text), ParamView::String(pattern)) => fits(
                    text,
                    pattern,
                    row.case(folded || dialect == Dialect::Sqlite),
                    escape || dialect == Dialect::Postgres,
                ),
                _ => false,
            },
            Condition::Constant(always) => always,
            Condition::Group { operator, parts } => match operator {
                BoolOperator::And => forall|i: int|
                    0 <= i < parts.len() ==> (#[trigger] parts[i]).holds(params, dialect, row),
                BoolOperator::Or => exists|i: int|
                    0 <= i < parts.len() && (#[trigger] parts[i]).holds(params, dialect, row),
            },
        }
    }

    /// How many parameters the condition binds.
    pub open spec fn bound(self, dialect: Dialect) -> nat
        decreases self, self.width() + 1,
    {
        match self {
            Condition::Compare { .. } | Condition::Match { .. } => 1,
            Condition::Null { .. } | Condition::Constant(_) => 0,
            Condition::Among { column, negated, at, count } => match dialect {
                Dialect::Postgres => 1,
                Dialect::Sqlite => count,
            },
            Condition::Group { operator, parts } => self.bound_by_parts(parts.len(), dialect),
        }
    }

    pub open spec fn bound_by_parts(self, n: nat, dialect: Dialect) -> nat
        decreases self, n,
    {
        match self {
            Condition::Group { operator, parts } if 0 < n <= parts.len() => self.bound_by_parts(
                (n - 1) as nat,
                dialect,
            ) + parts[n - 1].bound(dialect),
            _ => 0,
        }
    }

    /// The parameters are bound in the order in which their placeholders stand, from
    /// place `from` on.
    pub open spec fn in_order(self, from: nat, dialect: Dialect) -> bool
        decreases self,
    {
        match self {
            Condition::Compare { column, comparison, at } => at == from,
            Condition::Match { column, folded, escape, at } => at == from,
            Condition::Among { column, negated, at, count } => at == from,
            Condition::Null { .. } | Condition::Constant(_) => true,
            Condition::Group { operator, parts } => forall|i: int|
                0 <= i < parts.len() ==> (#[trigger] parts[i]).in_order(
                    from + self.bound_by_parts(i as nat, dialect),
                    dialect,
                ),
        }
    }
}

/// A row, as far as conditions look at it.
pub struct Row {
    /// The column is null.
    pub null: spec_fn(Seq<char>) -> bool,
    /// How the column's value compares with a value, where the two can be compared.
    pub order: spec_fn(Seq<char>, ParamView) -> Option<int>,
    /// The column's text, where it has one.
    pub text: spec_fn(Seq<char>) -> Option<Seq<char>>,
    /// Two characters that are the same but for their case.
    pub alike: spec_fn(char, char) -> bool,
}

impl Row {
    /// When two characters count as equal.
    pub open spec fn case(self, folded: bool) -> spec_fn(char, char) -> bool {
        if folded {
            self.alike
        } else {
            |a: char, b: char| a == b
        }
    }

    pub open spec fn compares(
        self,
        column: Seq<char>,
        comparison: Comparison,
        value: ParamView,
    ) -> bool {
        match (self.order)(column, value) {
            Some(order) => comparison.holds(order),
            None => false,
        }
    }
}

/// The column is equal to one of the values.
pub open spec fn is_among(row: Row, column: Seq<char>, values: Seq<ParamView>) -> bool {
    exists|i: int| 0 <= i < values.len() && row.compares(
        column,
        Comparison::Equal,
        #[trigger] values[i],
    )
}

/// The column differs from each of the values.
pub open spec fn differs(row: Row, column: Seq<char>, values: Seq<ParamView>) -> bool {
    forall|i: int|
        0 <= i < values.len() ==> row.compares(
            column,
            Comparison::Unequal,
            #[trigger] values[i],
        )
}

/// The text fits the pattern: `%` stands for any text, `_` for any character, and,
/// where there is an escape character, a character behind a backslash for itself.
pub open spec fn fits(
    text: Seq<char>,
    pattern: Seq<char>,
    same: spec_fn(char, char) -> bool,
    escape: bool,
) -> bool
    decreases pattern.len(),
{
    if pattern.len() == 0 {
        text.len() == 0
    } else if pattern[0] == '%' {
        exists|i: int|
            0 <= i <= text.len() && fits(#[trigger] text.skip(i), pattern.skip(1), same, escape)
    } else if text.len() == 0 {
        false
    } else if escape && pattern[0] == '\\' && pattern.len() > 1 {
        same(text[0], pattern[1]) && fits(text.skip(1), pattern.skip(2), same, escape)
    } else if pattern[0] == '_' {
        fits(text.skip(1), pattern.skip(1), same, escape)
    } else {
        same(text[0], pattern[0]) && fits(text.skip(1), pattern.skip(1), same, escape)
    }
}

/// `part` stands in `text` at position `at`.
pub open spec fn occurs(
    text: Seq<char>,
    at: int,
    part: Seq<char>,
    same: spec_fn(char, char) -> bool,
) -> bool {
    &&& 0 <= at
    &&& at + part.len() <= text.len()
    &&& forall|i: int| 0 <= i < part.len() ==> same(text[at + i], #[trigger] part[i])
}

/// The value that a scalar is bound as.
pub open spec fn bound_value(scalar: ScalarView) -> ParamView {
    match scalar {
        ScalarView::String(text) => ParamView::String(text),
        ScalarView::Number(numeral) => ParamView::Number(numeral),
        ScalarView::Bool(b) => ParamView::Bool(b),
        ScalarView::Null => ParamView::Null,
    }
}

/// The values of a list, each as it is bound.
pub open spec fn bound_values(scalars: Seq<ScalarView>) -> Seq<ParamView> {
    Seq::new(scalars.len(), |i: int| bound_value(scalars[i]))
}

/// A condition of a filter selects a row.
pub open spec fn condition_selects(
    column: Seq<char>,
    operator: FilterOperator,
    value: ValueView,
    dialect: Dialect,
    row: Row,
) -> bool {
    match value {
        ValueView::List(scalars) => match operator {
            FilterOperator::In => is_among(row, column, bound_values(scalars)),
            FilterOperator::NotIn => differs(row, column, bound_values(scalars)),
            _ => false,
        },
        ValueView::Scalar(scalar) => {
            let bound = bound_value(scalar);
            match operator {
                FilterOperator::Eq => if scalar is Null {
                    (row.null)(column)
                } else {
                    row.compares(column, Comparison::Equal, bound)
                },
                FilterOperator::Ne => if scalar is Null {
                    !(row.null)(column)
                } else {
                    row.compares(column, Comparison::Unequal, bound)
                },
                FilterOperator::Gt => row.compares(column, Comparison::Greater, bound),
                FilterOperator::Gte => row.compares(column, Comparison::AtLeast, bound),
                FilterOperator::Lt => row.compares(column, Comparison::Less, bound),
                FilterOperator::Lte => row.compares(column, Comparison::AtMost, bound),
                _ => match ((row.text)(column), scalar) {
                    (Some(text), ScalarView::String(part)) => text_selects(
                        text,
                        operator,
                        part,
                        dialect,
                        row,
                    ),
                    _ => false,
                },
            }
        },
    }
}

/// A condition on a text: `like` and `ilike` take the value as a pattern, the others
/// take it literally and without regard to case. SQLite has one `LIKE`, which does not
/// regard case and has no escape character unless one is named.
pub open spec fn text_selects(
    text: Seq<char>,
    operator: FilterOperator,
    part: Seq<char>,
    dialect: Dialect,
    row: Row,
) -> bool {
    let native = dialect == Dialect::Postgres;
    match operator {
        FilterOperator::Like => fits(text, part, row.case(!native), native),
        FilterOperator::Ilike => fits(text, part, row.alike, native),
        FilterOperator::Contains => exists|at: int| #[trigger] occurs(text, at, part, row.alike),
        FilterOperator::StartsWith => occurs(text, 0, part, row.alike),
        FilterOperator::EndsWith => occurs(text, text.len() - part.len(), part, row.alike),
        _ => false,
    }
}

/// The filter holds at least one condition.
pub open spec fn says_something(tree: FilterTree) -> bool
    decreases tree,
{
    match tree {
        FilterTree::Condition { .. } => true,
        FilterTree::Group { operator, conditions } => exists|i: int|
            0 <= i < conditions.len() && says_something(#[trigger] conditions[i]),
    }
}

/// A filter selects a row: a group does so if all or any of the filters in it do, those
/// that say nothing left aside.
pub open spec fn selects(
    tree: FilterTree,
    columns: Map<Seq<char>, Seq<char>>,
    dialect: Dialect,
    row: Row,
) -> bool
    decreases tree,
{
    match tree {
        FilterTree::Condition { field, operator, value } => condition_selects(
            columns[field],
            operator,
            value,
            dialect,
            row,
        ),
        FilterTree::Group { operator, conditions } => match operator {
            BoolOperator::And => forall|i: int|
                0 <= i < conditions.len() && says_something(conditions[i]) ==> selects(
                    #[trigger] conditions[i],
                    columns,
                    dialect,
                    row,
                ),
            BoolOperator::Or => exists|i: int|
                0 <= i < conditions.len() && says_something(conditions[i]) && selects(
                    #[trigger] conditions[i],
                    columns,
                    dialect,
                    row,
                ),
        },
    }
}

/// The parameters from place `at` on are these.
pub open spec fn carries(params: Seq<ParamView>, at: nat, own: Seq<ParamView>) -> bool {
    &&& at + own.len() <= params.len()
    &&& forall|i: int| 0 <= i < own.len() ==> params[at + i] == #[trigger] own[i]
}

proof fn lemma_fits_escaped(
    text: Seq<char>,
    part: Seq<char>,
    rest: Seq<char>,
    same: spec_fn(char, char) -> bool,
)
    ensures
        fits(text, escaped(part) + rest, same, true) == (occurs(text, 0, part, same) && fits(
            text.skip(part.len() as int),
            rest,
            same,
            true,
        )),
    decreases part.len(),
{
    let pattern = escaped(part) + rest;
    if part.len() == 0 {
        assert(pattern =~= rest);
        assert(text.skip(0) =~= text);
    } else {
        lemma_escaped_head(part);
        let tail = part.skip(1);
        assert(part.drop_first() =~= tail);
        if text.len() > 0 {
            let after = text.skip(1);
            lemma_fits_escaped(after, tail, rest, same);
            if is_wildcard(part[0]) {
                assert(pattern[0] == '\\' && pattern[1] == part[0]);
                assert(pattern.skip(2) =~= escaped(tail) + rest);
            } else {
                assert(pattern[0] == part[0]);
                assert(pattern.skip(1) =~= escaped(tail) + rest);
            }
            if part.len() <= text.len() {
                assert(after.skip(tail.len() as int) =~= text.skip(part.len() as int));
            }
            if occurs(text, 0, part, same) {
                assert forall|i: int| 0 <= i < tail.len() implies same(
                    after[0 + i],
                    #[trigger] tail[i],
                ) by {
                    assert(same(text[0 + (i + 1)], part[i + 1]));
                }
                assert(same(text[0], part[0]));
            }
            if same(text[0], part[0]) && occurs(after, 0, tail, same) {
                assert forall|i: int| 0 <= i < part.len() implies same(
                    text[0 + i],
                    #[trigger] part[i],
                ) by {
                    if i > 0 {
                        assert(same(after[0 + (i - 1)], tail[i - 1]));
                    }
                }
            }
        } else if is_wildcard(part[0]) {
            assert(pattern[0] == '\\' && pattern[1] == part[0]);
        } else {
            assert(pattern[0] == part[0]);
        }
    }
}

proof fn lemma_any_text_fits(text: Seq<char>, same: spec_fn(char, char) -> bool)
    ensures
        fits(text, seq!['%'], same, true),
{
    let n = text.len() as int;
    assert(seq!['%'].skip(1) =~= Seq::<char>::empty());
    assert(fits(text.skip(n), seq!['%'].skip(1), same, true));
}

/// The three ways of wrapping an escaped text match it as a substring, a prefix and a
/// suffix.
proof fn lemma_fits_wrapped(
    text: Seq<char>,
    part: Seq<char>,
    same: spec_fn(char, char) -> bool,
)
    ensures
        fits(text, "%"@ + escaped(part) + "%"@, same, true) == (exists|at: int| #[trigger]
            occurs(text, at, part, same)),
        fits(text, escaped(part) + "%"@, same, true) == occurs(text, 0, part, same),
        fits(text, "%"@ + escaped(part), same, true) == occurs(
            text,
            text.len() - part.len(),
            part,
            same,
        ),
{
    reveal_strlit("%");
    assert("%"@ =~= seq!['%']);
    lemma_fits_escaped(text, part, seq!['%'], same);
    lemma_any_text_fits(text.skip(part.len() as int), same);
    assert forall|at: int| 0 <= at <= text.len() implies occurs(
        #[trigger] text.skip(at),
        0,
        part,
        same,
    ) == occurs(text, at, part, same) by {
        let rest = text.skip(at);
        if occurs(rest, 0, part, same) {
            assert forall|i: int| 0 <= i < part.len() implies same(
                text[at + i],
                #[trigger] part[i],
            ) by {
                assert(same(rest[0 + i], part[i]));
            }
        }
        if occurs(text, at, part, same) {
            assert forall|i: int| 0 <= i < part.len() implies same(
                rest[0 + i],
                #[trigger] part[i],
            ) by {
                assert(same(text[at + i], part[i]));
            }
        }
    }
    let inside = "%"@ + escaped(part) + "%"@;
    assert(inside.skip(1) =~= escaped(part) + seq!['%']);
    assert(inside[0] == '%');
    assert forall|at: int| 0 <= at <= text.len() implies fits(
        #[trigger] text.skip(at),
        inside.skip(1),
        same,
        true,
    ) == occurs(text, at, part, same) by {
        lemma_fits_escaped(text.skip(at), part, seq!['%'], same);
        lemma_any_text_fits(text.skip(at).skip(part.len() as int), same);
    }
    if exists|at: int| #[trigger] occurs(text, at, part, same) {
        let at = choose|at: int| #[trigger] occurs(text, at, part, same);
        assert(fits(text.skip(at), inside.skip(1), same, true));
    }
    let end = "%"@ + escaped(part);
    let last = text.len() - part.len();
    assert(end.skip(1) =~= escaped(part) + Seq::<char>::empty());
    assert(end[0] == '%');
    assert forall|at: int| 0 <= at <= text.len() implies fits(
        #[trigger] text.skip(at),
        end.skip(1),
        same,
        true,
    ) == (at == last && occurs(text, at, part, same)) by {
        lemma_fits_escaped(text.skip(at), part, Seq::empty(), same);
    }
    if occurs(text, last, part, same) {
        assert(fits(text.skip(last), end.skip(1), same, true));
    }
}

proof fn lemma_marks(settings: RenderSettings, next: nat, count: nat)
    ensures
        joined(settings.placeholders(next, count), ", "@) == marks(settings.dialect, next, count),
    decreases count,
{
    let all = settings.placeholders(next, count);
    if count > 1 {
        lemma_marks(settings, next, (count - 1) as nat);
        assert(all.drop_last() =~= settings.placeholders(next, (count - 1) as nat));
    }
}

/// A compiled condition is the text of a condition that selects what it says.
proof fn lemma_condition(
    settings: RenderSettings,
    field: Seq<char>,
    operator: FilterOperator,
    value: ValueView,
    first: nat,
    at: nat,
) -> (condition: Condition)
    requires
        settings.condition(field, operator, value, first + at) is Ok,
    ensures
        ({
            let (sql, own) = settings.condition(field, operator, value, first + at)->Ok_0;
            &&& condition !is Group
            &&& condition.text(settings.dialect, first) == sql
            &&& condition.bound(settings.dialect) == own.len()
            &&& condition.in_order(at, settings.dialect)
            &&& forall|params: Seq<ParamView>, row: Row|
                carries(params, at, own) ==> #[trigger] condition.holds(
                    params,
                    settings.dialect,
                    row,
                ) == condition_selects(
                    settings.columns[field],
                    operator,
                    value,
                    settings.dialect,
                    row,
                )
        }),
{
    let column = settings.columns[field];
    let dialect = settings.dialect;
    let (sql, own) = settings.condition(field, operator, value, first + at)->Ok_0;
    let condition = match operator {
        FilterOperator::In | FilterOperator::NotIn => {
            let scalars = value->List_0;
            let negated = operator == FilterOperator::NotIn;
            if dialect == Dialect::Sqlite && scalars.len() == 0 {
                Condition::Constant(negated)
            } else {
                Condition::Among { column, negated, at, count: scalars.len() }
            }
        },
        FilterOperator::Like => Condition::Match { column, folded: false, escape: false, at },
        FilterOperator::Ilike => Condition::Match { column, folded: true, escape: false, at },
        FilterOperator::Contains | FilterOperator::StartsWith | FilterOperator::EndsWith =>
            Condition::Match { column, folded: true, escape: true, at },
        FilterOperator::Eq if value->Scalar_0 is Null => Condition::Null {
            column,
            negated: false,
        },
        FilterOperator::Ne if value->Scalar_0 is Null => Condition::Null { column, negated: true },
        _ => {
            let comparison = match operator {
                FilterOperator::Eq => Comparison::Equal,
                FilterOperator::Ne => Comparison::Unequal,
                FilterOperator::Gt => Comparison::Greater,
                FilterOperator::Gte => Comparison::AtLeast,
                FilterOperator::Lt => Comparison::Less,
                _ => Comparison::AtMost,
            };
            Condition::Compare { column, comparison, at }
        },
    };
    lemma_condition_text(settings, field, operator, value, first, at, condition);
    assert forall|params: Seq<ParamView>, row: Row|
        carries(params, at, own) implies #[trigger] condition.holds(params, dialect, row)
        == condition_selects(column, operator, value, dialect, row) by {
        match value {
            ValueView::List(scalars) => {
                let values = bound_values(scalars);
                assert(scalar_params(scalars) =~= values);
                if dialect == Dialect::Postgres {
                    assert(own[0] == params[at + 0int]);
                } else if scalars.len() > 0 {
                    assert(params.subrange(at as int, (at + scalars.len()) as int) =~= values) by {
                        assert forall|i: int| 0 <= i < values.len() implies #[trigger] params[at
                            + i] == values[i] by {
                            assert(own[i] == values[i]);
                        }
                    }
                }
            },
            ValueView::Scalar(scalar) => {
                if own.len() > 0 {
                    assert(own[0] == params[at + 0int]);
                }
                if let ScalarView::String(part) = scalar {
                    if let Some(text) = (row.text)(column) {
                        lemma_fits_wrapped(text, part, row.alike);
                    }
                }
            },
        }
    }
    condition
}

proof fn lemma_condition_text(
    settings: RenderSettings,
    field: Seq<char>,
    operator: FilterOperator,
    value: ValueView,
    first: nat,
    at: nat,
    condition: Condition,
)
    requires
        settings.condition(field, operator, value, first + at) is Ok,
        ({
            let column = settings.columns[field];
            match condition {
                Condition::Compare { column: c, comparison, at: a } => c == column && a == at && (
                match operator {
                    FilterOperator::Eq => comparison == Comparison::Equal,
                    FilterOperator::Ne => comparison == Comparison::Unequal,
                    FilterOperator::Gt => comparison == Comparison::Greater,
                    FilterOperator::Gte => comparison == Comparison::AtLeast,
                    FilterOperator::Lt => comparison == Comparison::Less,
                    FilterOperator::Lte => comparison == Comparison::AtMost,
                    _ => false,
                }) && !((operator == FilterOperator::Eq || operator == FilterOperator::Ne)
                    && value->Scalar_0 is Null),
                Condition::Null { column: c, negated } => c == column && value->Scalar_0 is Null
                    && operator == (if negated {
                    FilterOperator::Ne
                } else {
                    FilterOperator::Eq
                }),
                Condition::Among { column: c, negated, at: a, count } => c == column && a == at
                    && count == value->List_0.len() && operator == (if negated {
                    FilterOperator::NotIn
                } else {
                    FilterOperator::In
                }) && !(settings.dialect == Dialect::Sqlite && count == 0),
                Condition::Match { column: c, folded, escape, at: a } => c == column && a == at
                    && (match operator {
                    FilterOperator::Like => !folded && !escape,
                    FilterOperator::Ilike => folded && !escape,
                    FilterOperator::Contains
                    | FilterOperator::StartsWith
                    | FilterOperator::EndsWith => folded && escape,
                    _ => false,
                }),
                Condition::Constant(always) => settings.dialect == Dialect::Sqlite
                    && value->List_0.len() == 0 && operator == (if always {
                    FilterOperator::NotIn
                } else {
                    FilterOperator::In
                }),
                Condition::Group { .. } => false,
            }
        }),
    ensures
        condition.text(settings.dialect, first) == settings.condition(
            field,
            operator,
            value,
            first + at,
        )->Ok_0.0,
{
    reveal_strlit(" ILIKE ");
    reveal_strlit(" LIKE ");
    reveal_strlit("ILIKE");
    reveal_strlit("LIKE");
    reveal_strlit(" ");
    assert(" "@ + "ILIKE"@ + " "@ =~= " ILIKE "@);
    assert(" "@ + "LIKE"@ + " "@ =~= " LIKE "@);
    let sql = settings.condition(field, operator, value, first + at)->Ok_0.0;
    let text = condition.text(settings.dialect, first);
    if let Condition::Among { column, negated, at, count } = condition {
        lemma_marks(settings, first + at, count);
    }
    assert(text =~= sql);
}

spec fn group_of(operator: BoolOperator, parts: Seq<Condition>) -> Condition {
    Condition::Group { operator, parts }
}

/// How a part stands in the text of a group.
spec fn part_text(part: Condition, dialect: Dialect, first: nat) -> Seq<char> {
    if part is Group {
        "("@ + part.text(dialect, first) + ")"@
    } else {
        part.text(dialect, first)
    }
}

proof fn lemma_group_text(
    operator: BoolOperator,
    parts: Seq<Condition>,
    texts: Seq<Seq<char>>,
    n: nat,
    dialect: Dialect,
    first: nat,
)
    requires
        n <= parts.len(),
        texts.len() == parts.len(),
        forall|k: int|
            0 <= k < parts.len() ==> #[trigger] texts[k] == part_text(parts[k], dialect, first),
    ensures
        joined(texts.take(n as int), joiner(operator)) == group_of(operator, parts).text_of_parts(
            n,
            dialect,
            first,
        ),
    decreases n,
{
    if n > 0 {
        let some = texts.take(n as int);
        lemma_group_text(operator, parts, texts, (n - 1) as nat, dialect, first);
        assert(some.drop_last() =~= texts.take(n - 1));
        assert(some.last() == texts[n - 1]);
        assert(some.last() == part_text(parts[n - 1], dialect, first));
    }
}

proof fn lemma_bound_prefix(
    operator: BoolOperator,
    parts: Seq<Condition>,
    more: Condition,
    n: nat,
    dialect: Dialect,
)
    requires
        n <= parts.len(),
    ensures
        group_of(operator, parts.push(more)).bound_by_parts(n, dialect) == group_of(
            operator,
            parts,
        ).bound_by_parts(n, dialect),
    decreases n,
{
    if n > 0 {
        lemma_bound_prefix(operator, parts, more, (n - 1) as nat, dialect);
        assert(parts.push(more)[n - 1] == parts[n - 1]);
    }
}

spec fn all_hold(parts: Seq<Condition>, params: Seq<ParamView>, dialect: Dialect, row: Row) -> bool {
    forall|i: int| 0 <= i < parts.len() ==> (#[trigger] parts[i]).holds(params, dialect, row)
}

spec fn any_holds(parts: Seq<Condition>, params: Seq<ParamView>, dialect: Dialect, row: Row) -> bool {
    exists|i: int| 0 <= i < parts.len() && (#[trigger] parts[i]).holds(params, dialect, row)
}

spec fn all_select(
    conditions: Seq<FilterTree>,
    columns: Map<Seq<char>, Seq<char>>,
    dialect: Dialect,
    row: Row,
) -> bool {
    forall|i: int|
        0 <= i < conditions.len() && says_something(conditions[i]) ==> selects(
            #[trigger] conditions[i],
            columns,
            dialect,
            row,
        )
}

spec fn any_selects(
    conditions: Seq<FilterTree>,
    columns: Map<Seq<char>, Seq<char>>,
    dialect: Dialect,
    row: Row,
) -> bool {
    exists|i: int|
        0 <= i < conditions.len() && says_something(conditions[i]) && selects(
            #[trigger] conditions[i],
            columns,
            dialect,
            row,
        )
}

spec fn any_says(conditions: Seq<FilterTree>) -> bool {
    exists|i: int| 0 <= i < conditions.len() && says_something(#[trigger] conditions[i])
}

proof fn lemma_last_part(
    parts: Seq<Condition>,
    more: Condition,
    params: Seq<ParamView>,
    dialect: Dialect,
    row: Row,
)
    ensures
        all_hold(parts.push(more), params, dialect, row) == (all_hold(parts, params, dialect, row)
            && more.holds(params, dialect, row)),
        any_holds(parts.push(more), params, dialect, row) == (any_holds(parts, params, dialect, row)
            || more.holds(params, dialect, row)),
{
    let all = parts.push(more);
    assert(all[parts.len() as int] == more);
    assert(forall|i: int| 0 <= i < parts.len() ==> #[trigger] all[i] == parts[i]);
    if all_hold(all, params, dialect, row) {
        assert(all[parts.len() as int].holds(params, dialect, row));
        assert forall|i: int| 0 <= i < parts.len() implies (#[trigger] parts[i]).holds(
            params,
            dialect,
            row,
        ) by {
            assert(all[i].holds(params, dialect, row));
        }
    }
    if any_holds(parts, params, dialect, row) {
        let i = choose|i: int|
            0 <= i < parts.len() && (#[trigger] parts[i]).holds(params, dialect, row);
        assert(all[i].holds(params, dialect, row));
    }
    if any_holds(all, params, dialect, row) {
        let i = choose|i: int|
            0 <= i < all.len() && (#[trigger] all[i]).holds(params, dialect, row);
        if i < parts.len() {
            assert(parts[i].holds(params, dialect, row));
        }
    }
    if more.holds(params, dialect, row) {
        assert(all[parts.len() as int].holds(params, dialect, row));
    }
}

proof fn lemma_last_filter(
    conditions: Seq<FilterTree>,
    more: FilterTree,
    columns: Map<Seq<char>, Seq<char>>,
    dialect: Dialect,
    row: Row,
)
    ensures
        all_select(conditions.push(more), columns, dialect, row) == (all_select(
            conditions,
            columns,
            dialect,
            row,
        ) && (says_something(more) ==> selects(more, columns, dialect, row))),
        any_selects(conditions.push(more), columns, dialect, row) == (any_selects(
            conditions,
            columns,
            dialect,
            row,
        ) || (says_something(more) && selects(more, columns, dialect, row))),
        any_says(conditions.push(more)) == (any_says(conditions) || says_something(more)),
{
    let all = conditions.push(more);
    let last = conditions.len() as int;
    assert(all[last] == more);
    assert(forall|i: int| 0 <= i < last ==> #[trigger] all[i] == conditions[i]);
    if all_select(all, columns, dialect, row) {
        assert forall|i: int| 0 <= i < last && says_something(conditions[i]) implies selects(
            #[trigger] conditions[i],
            columns,
            dialect,
            row,
        ) by {
            assert(selects(all[i], columns, dialect, row));
        }
        assert(says_something(all[last]) ==> selects(all[last], columns, dialect, row));
    }
    if any_selects(conditions, columns, dialect, row) {
        let i = choose|i: int|
            0 <= i < last && says_something(conditions[i]) && selects(
                #[trigger] conditions[i],
                columns,
                dialect,
                row,
            );
        assert(selects(all[i], columns, dialect, row));
    }
    if any_selects(all, columns, dialect, row) {
        let i = choose|i: int|
            0 <= i < all.len() && says_something(all[i]) && selects(
                #[trigger] all[i],
                columns,
                dialect,
                row,
            );
        if i < last {
            assert(selects(conditions[i], columns, dialect, row));
        }
    }
    if says_something(more) && selects(more, columns, dialect, row) {
        assert(selects(all[last], columns, dialect, row));
    }
    if any_says(conditions) {
        let i = choose|i: int| 0 <= i < last && says_something(#[trigger] conditions[i]);
        assert(says_something(all[i]));
    }
    if any_says(all) {
        let i = choose|i: int| 0 <= i < all.len() && says_something(#[trigger] all[i]);
        if i < last {
            assert(says_something(conditions[i]));
        }
    }
    if says_something(more) {
        assert(says_something(all[last]));
    }
}

proof fn lemma_carries_parts(
    params: Seq<ParamView>,
    at: nat,
    own: Seq<ParamView>,
    more: Seq<ParamView>,
)
    requires
        carries(params, at, own + more),
    ensures
        carries(params, at, own),
        carries(params, at + own.len(), more),
{
    let all = own + more;
    assert forall|i: int| 0 <= i < own.len() implies params[at + i] == #[trigger] own[i] by {
        assert(all[i] == own[i]);
    }
    assert forall|i: int| 0 <= i < more.len() implies params[at + own.len() + i]
        == #[trigger] more[i] by {
        assert(all[own.len() + i] == more[i]);
    }
}

/// A compiled filter is the text of a condition that selects what the filter says.
proof fn lemma_filter(settings: RenderSettings, tree: FilterTree, first: nat, at: nat) -> (condition:
    Option<Condition>)
    requires
        settings.filter(tree, first + at) is Ok,
    ensures
        ({
            let (sql, own) = settings.filter(tree, first + at)->Ok_0;
            match condition {
                None => sql is None && own.len() == 0 && !says_something(tree),
                Some(c) => {
                    &&& says_something(tree)
                    &&& (c is Group) == (tree is Group)
                    &&& sql == Some(c.text(settings.dialect, first))
                    &&& c.bound(settings.dialect) == own.len()
                    &&& c.in_order(at, settings.dialect)
                    &&& forall|params: Seq<ParamView>, row: Row|
                        carries(params, at, own) ==> #[trigger] c.holds(
                            params,
                            settings.dialect,
                            row,
                        ) == selects(tree, settings.columns, settings.dialect, row)
                },
            }
        }),
    decreases tree, tree.width() + 1,
{
    match tree {
        FilterTree::Condition { field, operator, value } => {
            let c = lemma_condition(settings, field, operator, value, first, at);
            Some(c)
        },
        FilterTree::Group { operator, conditions } => {
            let parts = lemma_parts(settings, tree, conditions.len(), first, at);
            let (texts, own) = settings.parts(tree, conditions.len(), first + at)->Ok_0;
            let dialect = settings.dialect;
            assert(conditions.take(conditions.len() as int) =~= conditions);
            assert(says_something(tree) == any_says(conditions));
            if parts.len() == 0 {
                None
            } else {
                let c = group_of(operator, parts);
                lemma_group_text(operator, parts, texts, parts.len(), dialect, first);
                assert(texts.take(parts.len() as int) =~= texts);
                assert forall|params: Seq<ParamView>, row: Row|
                    carries(params, at, own) implies #[trigger] c.holds(params, dialect, row)
                    == selects(tree, settings.columns, dialect, row) by {
                    assert(all_hold(parts, params, dialect, row) == all_select(
                        conditions,
                        settings.columns,
                        dialect,
                        row,
                    ));
                    assert(any_holds(parts, params, dialect, row) == any_selects(
                        conditions,
                        settings.columns,
                        dialect,
                        row,
                    ));
                }
                Some(c)
            }
        },
    }
}

proof fn lemma_parts(
    settings: RenderSettings,
    tree: FilterTree,
    n: nat,
    first: nat,
    at: nat,
) -> (parts: Seq<Condition>)
    requires
        tree is Group,
        n <= tree.width(),
        settings.parts(tree, n, first + at) is Ok,
    ensures
        ({
            let (texts, own) = settings.parts(tree, n, first + at)->Ok_0;
            let some = tree->Group_conditions.take(n as int);
            let group = group_of(tree->Group_operator, parts);
            &&& texts.len() == parts.len()
            &&& forall|k: int|
                0 <= k < parts.len() ==> #[trigger] texts[k] == part_text(
                    parts[k],
                    settings.dialect,
                    first,
                )
            &&& group.bound_by_parts(parts.len(), settings.dialect) == own.len()
            &&& forall|k: int|
                0 <= k < parts.len() ==> (#[trigger] parts[k]).in_order(
                    at + group.bound_by_parts(k as nat, settings.dialect),
                    settings.dialect,
                )
            &&& (parts.len() > 0) == any_says(some)
            &&& parts.len() == 0 ==> own.len() == 0
            &&& forall|params: Seq<ParamView>, row: Row|
                carries(params, at, own) ==> (#[trigger] all_hold(
                    parts,
                    params,
                    settings.dialect,
                    row,
                ) == all_select(some, settings.columns, settings.dialect, row))
            &&& forall|params: Seq<ParamView>, row: Row|
                carries(params, at, own) ==> (#[trigger] any_holds(
                    parts,
                    params,
                    settings.dialect,
                    row,
                ) == any_selects(some, settings.columns, settings.dialect, row))
        }),
    decreases tree, n,
{
    let conditions = tree->Group_conditions;
    let operator = tree->Group_operator;
    let dialect = settings.dialect;
    let columns = settings.columns;
    if n == 0 {
        assert(conditions.take(0) =~= Seq::empty());
        Seq::empty()
    } else {
        let fewer = (n - 1) as nat;
        let before = lemma_parts(settings, tree, fewer, first, at);
        let (texts, own) = settings.parts(tree, fewer, first + at)->Ok_0;
        let child = conditions[n - 1];
        let some = conditions.take(n - 1);
        assert(first + at + own.len() == first + (at + own.len()));
        let c = lemma_filter(settings, child, first, at + own.len());
        let (sql, more) = settings.filter(child, first + (at + own.len()))->Ok_0;
        let all = own + more;
        assert(conditions.take(n as int) =~= some.push(child));
        match c {
            None => {
                assert(all =~= own);
                assert forall|row: Row|
                    (all_select(some.push(child), columns, dialect, row) == #[trigger] all_select(
                        some,
                        columns,
                        dialect,
                        row,
                    )) by {
                    lemma_last_filter(some, child, columns, dialect, row);
                }
                assert forall|row: Row|
                    (any_selects(some.push(child), columns, dialect, row) == #[trigger] any_selects(
                        some,
                        columns,
                        dialect,
                        row,
                    )) by {
                    lemma_last_filter(some, child, columns, dialect, row);
                }
                assert(any_says(some.push(child)) == any_says(some)) by {
                    lemma_last_filter(some, child, columns, dialect, arbitrary());
                }
                before
            },
            Some(c) => {
                let parts = before.push(c);
                let group = group_of(operator, parts);
                let last = before.len();
                lemma_last_filter(some, child, columns, dialect, arbitrary());
                lemma_bound_prefix(operator, before, c, last, dialect);
                assert(parts[last as int] == c);
                assert forall|k: int| 0 <= k < parts.len() implies (#[trigger] parts[k]).in_order(
                    at + group.bound_by_parts(k as nat, dialect),
                    dialect,
                ) by {
                    lemma_bound_prefix(operator, before, c, k as nat, dialect);
                    if k < last {
                        assert(before[k].in_order(
                            at + group_of(operator, before).bound_by_parts(k as nat, dialect),
                            dialect,
                        ));
                    }
                }
                assert forall|params: Seq<ParamView>, row: Row|
                    carries(params, at, all) implies (#[trigger] all_hold(
                    parts,
                    params,
                    dialect,
                    row,
                ) == all_select(some.push(child), columns, dialect, row)) by {
                    lemma_carries_parts(params, at, own, more);
                    lemma_last_part(before, c, params, dialect, row);
                    lemma_last_filter(some, child, columns, dialect, row);
                    assert(c.holds(params, dialect, row) == selects(child, columns, dialect, row));
                    assert(all_hold(before, params, dialect, row) == all_select(
                        some,
                        columns,
                        dialect,
                        row,
                    ));
                }
                assert forall|params: Seq<ParamView>, row: Row|
                    carries(params, at, all) implies (#[trigger] any_holds(
                    parts,
                    params,
                    dialect,
                    row,
                ) == any_selects(some.push(child), columns, dialect, row)) by {
                    lemma_carries_parts(params, at, own, more);
                    lemma_last_part(before, c, params, dialect, row);
                    lemma_last_filter(some, child, columns, dialect, row);
                    assert(c.holds(params, dialect, row) == selects(child, columns, dialect, row));
                    assert(any_holds(before, params, dialect, row) == any_selects(
                        some,
                        columns,
                        dialect,
                        row,
                    ));
                }
                parts
            },
        }
    }
}

/// A compiled query selects what its filter says. Its `WHERE` body is the text of a
/// condition, numbered from the first parameter on, that binds the parameters in
/// order, all of them, and holds of exactly the rows that the filter selects; there is
/// none if the filter says nothing.
pub proof fn compiled_filters_select_what_they_say(
    query: ListQueryView,
    columns: Map<Seq<char>, Seq<char>>,
    dialect: Dialect,
    options: CompileOptions,
) -> (condition: Option<Condition>)
    requires
        compiled(query, columns, dialect, options) is Ok,
    ensures
        ({
            let fragment = compiled(query, columns, dialect, options)->Ok_0;
            let first = if options.start_param == 0 {
                1
            } else {
                options.start_param as nat
            };
            match condition {
                None => fragment.where_clause is None && fragment.params.len() == 0
                    && !says_something(query.filter),
                Some(c) => {
                    &&& says_something(query.filter)
                    &&& fragment.where_clause == Some(c.text(dialect, first))
                    &&& c.in_order(0, dialect)
                    &&& c.bound(dialect) == fragment.params.len()
                    &&& forall|row: Row|
                        #[trigger] c.holds(fragment.params, dialect, row) == selects(
                            query.filter,
                            columns,
                            dialect,
                            row,
                        )
                },
            }
        }),
{
    let settings = RenderSettings::of(columns, dialect, options);
    let first = first_index(options.start_param as nat);
    let condition = lemma_filter(settings, query.filter, first, 0);
    let own = settings.filter(query.filter, first)->Ok_0.1;
    assert(carries(own, 0, own));
    condition
}

/// The signs of the comparisons are all different.
pub proof fn symbols_differ(a: Comparison, b: Comparison)
    requires
        a.symbol() == b.symbol(),
    ensures
        a == b,
{
    reveal_strlit("=");
    reveal_strlit("<>");
    reveal_strlit(">");
    reveal_strlit(">=");
    reveal_strlit("<");
    reveal_strlit("<=");
    let s = a.symbol();
    assert(s.len() == b.symbol().len());
    assert(s[0] == b.symbol()[0]);
    if s.len() > 1 {
        assert(s[1] == b.symbol()[1]);
    }
}

/// Of the rows that a value can be compared with, those below it and those at or above
/// it are complementary, and so are those above it and those at or below it, and those
/// equal to it and those that differ; a row that cannot be compared is in none.
pub proof fn comparisons_are_complementary(
    column: Seq<char>,
    scalar: ScalarView,
    dialect: Dialect,
    row: Row,
)
    requires
        scalar !is Null,
    ensures
        ({
            let value = ValueView::Scalar(scalar);
            let known = (row.order)(column, bound_value(scalar)) is Some;
            let selected = |operator: FilterOperator|
                condition_selects(column, operator, value, dialect, row);
            &&& known ==> selected(FilterOperator::Lt) != selected(FilterOperator::Gte)
            &&& known ==> selected(FilterOperator::Gt) != selected(FilterOperator::Lte)
            &&& known ==> selected(FilterOperator::Eq) != selected(FilterOperator::Ne)
            &&& !known ==> !selected(FilterOperator::Lt) && !selected(FilterOperator::Gte)
                && !selected(FilterOperator::Gt) && !selected(FilterOperator::Lte) && !selected(
                FilterOperator::Eq,
            ) && !selected(FilterOperator::Ne)
        }),
{
}

/// Conditions on one field that differ in nothing but their comparison are written
/// differently.
pub proof fn comparisons_are_written_differently(
    a: ListQueryView,
    b: ListQueryView,
    field: Seq<char>,
    x: FilterOperator,
    y: FilterOperator,
    scalar: ScalarView,
    columns: Map<Seq<char>, Seq<char>>,
    dialect: Dialect,
    options: CompileOptions,
)
    requires
        scalar !is Null,
        is_comparison(x),
        is_comparison(y),
        a.filter == (FilterTree::Condition {
            field,
            operator: x,
            value: ValueView::Scalar(scalar),
        }),
        b.filter == (FilterTree::Condition {
            field,
            operator: y,
            value: ValueView::Scalar(scalar),
        }),
        compiled(a, columns, dialect, options) is Ok,
        compiled(b, columns, dialect, options) is Ok,
        compiled(a, columns, dialect, options)->Ok_0.where_clause == compiled(
            b,
            columns,
            dialect,
            options,
        )->Ok_0.where_clause,
    ensures
        x == y,
{
    let settings = RenderSettings::of(columns, dialect, options);
    let first = first_index(options.start_param as nat);
    let column = columns[field];
    let p = comparison_of(x);
    let q = comparison_of(y);
    let one = Condition::Compare { column, comparison: p, at: 0 };
    let other = Condition::Compare { column, comparison: q, at: 0 };
    lemma_condition_text(settings, field, x, ValueView::Scalar(scalar), first, 0, one);
    lemma_condition_text(settings, field, y, ValueView::Scalar(scalar), first, 0, other);
    let s = one.text(dialect, first);
    let t = other.text(dialect, first);
    assert(s == t);
    let from = (column.len() + " "@.len()) as int;
    let tail = " "@ + mark(dialect, first);
    assert(s =~= column + " "@ + p.symbol() + tail);
    assert(t =~= column + " "@ + q.symbol() + tail);
    assert(p.symbol().len() == q.symbol().len());
    assert(s.subrange(from, from + p.symbol().len()) =~= p.symbol());
    assert(t.subrange(from, from + q.symbol().len()) =~= q.symbol());
    symbols_differ(p, q);
}

/// The operator compares a column with a scalar.
pub open spec fn is_comparison(operator: FilterOperator) -> bool {
    match operator {
        FilterOperator::Eq
        | FilterOperator::Ne
        | FilterOperator::Gt
        | FilterOperator::Gte
        | FilterOperator::Lt
        | FilterOperator::Lte => true,
        _ => false,
    }
}

spec fn comparison_of(operator: FilterOperator) -> Comparison {
    match operator {
        FilterOperator::Eq => Comparison::Equal,
        FilterOperator::Ne => Comparison::Unequal,
        FilterOperator::Gt => Comparison::Greater,
        FilterOperator::Gte => Comparison::AtLeast,
        FilterOperator::Lt => Comparison::Less,
        _ => Comparison::AtMost,
    }
}

/// The text of the first `n` sort clauses: each names its column and which way it runs.
pub open spec fn sort_text(
    sort: Seq<SortView>,
    n: nat,
    columns: Map<Seq<char>, Seq<char>>,
) -> Seq<char>
    decreases n,
{
    if n == 0 {
        Seq::empty()
    } else {
        let clause = columns[sort[n - 1].field] + (match sort[n - 1].direction {
            SortDirection::Asc => " ASC"@,
            SortDirection::Desc => " DESC"@,
        });
        if n == 1 {
            clause
        } else {
            sort_text(sort, (n - 1) as nat, columns) + ", "@ + clause
        }
    }
}

proof fn lemma_order_parts(settings: RenderSettings, sort: Seq<SortView>, n: nat)
    requires
        n <= sort.len(),
        settings.order_parts(sort, n) is Ok,
    ensures
        settings.order_parts(sort, n)->Ok_0.len() == n,
        joined(settings.order_parts(sort, n)->Ok_0, ", "@) == sort_text(
            sort,
            n,
            settings.columns,
        ),
        forall|i: int| 0 <= i < n ==> settings.columns.contains_key((#[trigger] sort[i]).field),
    decreases n,
{
    if n > 0 {
        lemma_order_parts(settings, sort, (n - 1) as nat);
        reveal_strlit(" ASC");
        reveal_strlit(" DESC");
        reveal_strlit("ASC");
        reveal_strlit("DESC");
        reveal_strlit(" ");
        assert(" "@ + "ASC"@ =~= " ASC"@);
        assert(" "@ + "DESC"@ =~= " DESC"@);
        let parts = settings.order_parts(sort, n)->Ok_0;
        let before = settings.order_parts(sort, (n - 1) as nat)->Ok_0;
        assert(parts.drop_last() =~= before);
        let column = settings.columns[sort[n - 1].field];
        assert(column + " "@ + "ASC"@ =~= column + " ASC"@);
        assert(column + " "@ + "DESC"@ =~= column + " DESC"@);
    }
}

/// A compiled query sorts as asked: its `ORDER BY` body names the columns of the sort
/// clauses in their order, each with its direction; there is none without a sort. Its
/// limit is the size of the page.
pub proof fn compiled_queries_sort_as_asked(
    query: ListQueryView,
    columns: Map<Seq<char>, Seq<char>>,
    dialect: Dialect,
    options: CompileOptions,
)
    requires
        compiled(query, columns, dialect, options) is Ok,
    ensures
        ({
            let fragment = compiled(query, columns, dialect, options)->Ok_0;
            &&& forall|i: int|
                0 <= i < query.sort.len() ==> columns.contains_key(
                    (#[trigger] query.sort[i]).field,
                )
            &&& match fragment.order_by {
                None => query.sort.len() == 0,
                Some(text) => query.sort.len() > 0 && text == sort_text(
                    query.sort,
                    query.sort.len(),
                    columns,
                ),
            }
            &&& match query.page {
                PageView::Cursor { size, cursor } => fragment.limit == size,
                PageView::Page { size, number } => fragment.limit == size,
                PageView::Offset { size, offset } => fragment.limit == size,
            }
        }),
{
    let settings = RenderSettings::of(columns, dialect, options);
    lemma_order_parts(settings, query.sort, query.sort.len());
}

/// The value that a cursor holds of a key, as it is bound.
pub open spec fn boundary(value: CursorValueView) -> ParamView {
    match value {
        CursorValueView::Null => ParamView::Null,
        CursorValueView::Bool(b) => ParamView::Bool(b),
        CursorValueView::Unsigned(n) => ParamView::Number(decimal(n as int)),
        CursorValueView::Signed(n) => ParamView::Number(decimal(n as int)),
        CursorValueView::Float(text) => ParamView::Number(text),
        CursorValueView::String(text) => ParamView::String(text),
        CursorValueView::Nested(text) => ParamView::Null,
    }
}

/// How the row compares with the cursor in sort key `i`.
pub open spec fn key_order(
    sort: Seq<SortView>,
    i: int,
    cursor: Map<Seq<char>, CursorValueView>,
    columns: Map<Seq<char>, Seq<char>>,
    row: Row,
) -> Option<int> {
    (row.order)(columns[sort[i].field], boundary(cursor[sort[i].field]))
}

/// The row comes behind the cursor in the order of the sort, or before it if the pages
/// run backward: in the first key from `from` on in which the two differ, the row has
/// the greater value if that key ascends, and the smaller one if it descends.
pub open spec fn comes_behind(
    sort: Seq<SortView>,
    from: int,
    cursor: Map<Seq<char>, CursorValueView>,
    columns: Map<Seq<char>, Seq<char>>,
    backward: bool,
    row: Row,
) -> bool
    decreases sort.len() - from,
{
    if from < 0 || from >= sort.len() {
        false
    } else {
        match key_order(sort, from, cursor, columns, row) {
            Some(order) => if order == 0 {
                comes_behind(sort, from + 1, cursor, columns, backward, row)
            } else if backward {
                match sort[from].direction {
                    SortDirection::Asc => order < 0,
                    SortDirection::Desc => order > 0,
                }
            } else {
                match sort[from].direction {
                    SortDirection::Asc => order > 0,
                    SortDirection::Desc => order < 0,
                }
            },
            None => false,
        }
    }
}

spec fn side(relation: Relation) -> Comparison {
    match relation {
        Relation::Equal => Comparison::Equal,
        Relation::Less => Comparison::Less,
        Relation::Greater => Comparison::Greater,
    }
}

spec fn key_comparison(keys: Seq<KeyView>, i: int, j: int) -> Condition {
    Condition::Compare {
        column: keys[j].column,
        comparison: side(relation_at(keys, i, j)),
        at: (bound_before(i as nat) + j) as nat,
    }
}

spec fn disjunct_comparisons(keys: Seq<KeyView>, i: int) -> Seq<Condition> {
    Seq::new((i + 1) as nat, |j: int| key_comparison(keys, i, j))
}

spec fn disjunct(keys: Seq<KeyView>, i: int) -> Condition {
    if i == 0 {
        key_comparison(keys, 0, 0)
    } else {
        group_of(BoolOperator::And, disjunct_comparisons(keys, i))
    }
}

spec fn disjuncts(keys: Seq<KeyView>) -> Seq<Condition> {
    Seq::new(keys.len(), |i: int| disjunct(keys, i))
}

proof fn lemma_disjunct_text(keys: Seq<KeyView>, i: int, dialect: Dialect, first: nat)
    requires
        0 <= i < keys.len(),
    ensures
        disjunct_sql(keys, i, dialect, first + bound_before(i as nat)) == part_text(
            disjunct(keys, i),
            dialect,
            first,
        ),
{
    let next = first + bound_before(i as nat);
    let texts = disjunct_parts(keys, i, dialect, next);
    let parts = disjunct_comparisons(keys, i);
    assert forall|j: int| 0 <= j < parts.len() implies #[trigger] texts[j] == part_text(
        parts[j],
        dialect,
        first,
    ) by {
        assert((next + j) as nat == first + (bound_before(i as nat) + j) as nat);
    }
    if i > 0 {
        lemma_group_text(BoolOperator::And, parts, texts, parts.len(), dialect, first);
        assert(texts.take(parts.len() as int) =~= texts);
    } else {
        assert(parts[0] == key_comparison(keys, 0, 0));
    }
}

proof fn lemma_disjunct_bound(keys: Seq<KeyView>, i: int, dialect: Dialect)
    requires
        0 <= i < keys.len(),
    ensures
        disjunct(keys, i).bound(dialect) == i + 1,
{
    lemma_comparisons_bound(keys, i, (i + 1) as nat, dialect);
    if i > 0 {
        assert(disjunct(keys, i).bound(dialect) == disjunct(keys, i).bound_by_parts(
            (i + 1) as nat,
            dialect,
        ));
    }
}

proof fn lemma_comparisons_bound(keys: Seq<KeyView>, i: int, n: nat, dialect: Dialect)
    requires
        0 <= i < keys.len(),
        n <= i + 1,
    ensures
        group_of(BoolOperator::And, disjunct_comparisons(keys, i)).bound_by_parts(n, dialect) == n,
    decreases n,
{
    if n > 0 {
        lemma_comparisons_bound(keys, i, (n - 1) as nat, dialect);
        let parts = disjunct_comparisons(keys, i);
        let group = group_of(BoolOperator::And, parts);
        assert(parts[n - 1] == key_comparison(keys, i, n - 1));
        assert(parts[n - 1].bound(dialect) == 1);
        assert(group.bound_by_parts(n, dialect) == group.bound_by_parts((n - 1) as nat, dialect)
            + parts[n - 1].bound(dialect));
    }
}

proof fn lemma_disjuncts_bound(keys: Seq<KeyView>, n: nat, dialect: Dialect)
    requires
        n <= keys.len(),
    ensures
        group_of(BoolOperator::Or, disjuncts(keys)).bound_by_parts(n, dialect) == bound_before(n),
    decreases n,
{
    if n > 0 {
        lemma_disjuncts_bound(keys, (n - 1) as nat, dialect);
        lemma_disjunct_bound(keys, n - 1, dialect);
        assert(disjuncts(keys)[n - 1] == disjunct(keys, n - 1));
    }
}

proof fn lemma_disjunct_order(keys: Seq<KeyView>, i: int, dialect: Dialect)
    requires
        0 <= i < keys.len(),
    ensures
        disjunct(keys, i).in_order(bound_before(i as nat), dialect),
{
    let from = bound_before(i as nat);
    if i > 0 {
        let parts = disjunct_comparisons(keys, i);
        let group = group_of(BoolOperator::And, parts);
        assert forall|j: int| 0 <= j < parts.len() implies (#[trigger] parts[j]).in_order(
            from + group.bound_by_parts(j as nat, dialect),
            dialect,
        ) by {
            lemma_comparisons_bound(keys, i, j as nat, dialect);
        }
    }
}

proof fn lemma_keyset_param(keys: Seq<KeyView>, n: nat, i: int, j: int)
    requires
        0 <= j <= i < n <= keys.len(),
    ensures
        keyset_params(keys, n).len() == bound_before(n),
        bound_before(i as nat) + j < bound_before(n),
        keyset_params(keys, n)[bound_before(i as nat) + j] == keys[j].param,
    decreases n,
{
    lemma_keyset_len(keys, (n - 1) as nat);
    if i < n - 1 {
        lemma_keyset_param(keys, (n - 1) as nat, i, j);
    } else {
        assert(key_params(keys, n)[j] == keys[j].param);
    }
}

proof fn lemma_keyset_len(keys: Seq<KeyView>, n: nat)
    ensures
        keyset_params(keys, n).len() == bound_before(n),
    decreases n,
{
    if n > 0 {
        lemma_keyset_len(keys, (n - 1) as nat);
    }
}

/// The keys are the sort clauses, with their columns and the values of the cursor.
proof fn lemma_keys(
    sort: Seq<SortView>,
    n: nat,
    cursor: Map<Seq<char>, CursorValueView>,
    columns: Map<Seq<char>, Seq<char>>,
    backward: bool,
)
    requires
        n <= sort.len(),
        resolved_keys(sort, n, cursor, columns, backward) is Ok,
    ensures
        ({
            let keys = resolved_keys(sort, n, cursor, columns, backward)->Ok_0;
            &&& keys.len() == n
            &&& forall|i: int|
                0 <= i < n ==> (#[trigger] keys[i]).column == columns[sort[i].field]
                    && keys[i].param == boundary(cursor[sort[i].field]) && keys[i].onward == (if (
                sort[i].direction == SortDirection::Asc) == backward {
                    Relation::Less
                } else {
                    Relation::Greater
                })
        }),
    decreases n,
{
    if n > 0 {
        lemma_keys(sort, (n - 1) as nat, cursor, columns, backward);
    }
}

proof fn lemma_comes_behind(
    sort: Seq<SortView>,
    keys: Seq<KeyView>,
    from: int,
    cursor: Map<Seq<char>, CursorValueView>,
    columns: Map<Seq<char>, Seq<char>>,
    backward: bool,
    row: Row,
    order: spec_fn(int) -> int,
)
    requires
        0 <= from <= sort.len() == keys.len(),
        forall|i: int|
            0 <= i < sort.len() ==> #[trigger] key_order(sort, i, cursor, columns, row) == Some(
                order(i),
            ),
        forall|i: int|
            0 <= i < sort.len() ==> (#[trigger] keys[i]).onward == (if (sort[i].direction
                == SortDirection::Asc) == backward {
                Relation::Less
            } else {
                Relation::Greater
            }),
    ensures
        comes_behind(sort, from, cursor, columns, backward, row) == beyond(keys, from, order),
    decreases sort.len() - from,
{
    if from < sort.len() {
        assert(key_order(sort, from, cursor, columns, row) == Some(order(from)));
        assert(keys[from].onward != Relation::Equal);
        lemma_comes_behind(sort, keys, from + 1, cursor, columns, backward, row, order);
    }
}

/// A keyset condition is the text of a condition in parentheses that binds the values of
/// the cursor in order and holds of exactly the rows behind the cursor, of all rows that
/// can be compared with it.
pub proof fn keyset_conditions_select_the_rows_behind_the_cursor(
    sort: Seq<SortView>,
    cursor: Map<Seq<char>, CursorValueView>,
    columns: Map<Seq<char>, Seq<char>>,
    dialect: Dialect,
    start_param: nat,
    backward: bool,
) -> (condition: Condition)
    requires
        keyset(sort, cursor, columns, dialect, start_param, backward) is Ok,
    ensures
        ({
            let (clause, params) = keyset(
                sort,
                cursor,
                columns,
                dialect,
                start_param,
                backward,
            )->Ok_0;
            let first = if start_param == 0 {
                1
            } else {
                start_param
            };
            &&& clause == "("@ + condition.text(dialect, first) + ")"@
            &&& condition.in_order(0, dialect)
            &&& condition.bound(dialect) == params.len()
            &&& forall|row: Row|
                (forall|i: int|
                    0 <= i < sort.len() ==> (#[trigger] key_order(
                        sort,
                        i,
                        cursor,
                        columns,
                        row,
                    )) is Some) ==> (#[trigger] condition.holds(params, dialect, row)
                    == comes_behind(sort, 0, cursor, columns, backward, row))
        }),
{
    let first = first_index(start_param);
    let n = sort.len();
    lemma_keys(sort, n, cursor, columns, backward);
    let keys = resolved_keys(sort, n, cursor, columns, backward)->Ok_0;
    let params = keyset_params(keys, keys.len());
    let parts = disjuncts(keys);
    let condition = group_of(BoolOperator::Or, parts);
    let texts = Seq::new(
        keys.len(),
        |i: int| disjunct_sql(keys, i, dialect, first + bound_before(i as nat)),
    );
    assert forall|i: int| 0 <= i < parts.len() implies #[trigger] texts[i] == part_text(
        parts[i],
        dialect,
        first,
    ) by {
        lemma_disjunct_text(keys, i, dialect, first);
    }
    lemma_group_text(BoolOperator::Or, parts, texts, parts.len(), dialect, first);
    assert(texts.take(parts.len() as int) =~= texts);
    assert forall|i: int| 0 <= i < parts.len() implies (#[trigger] parts[i]).in_order(
        0 + condition.bound_by_parts(i as nat, dialect),
        dialect,
    ) by {
        lemma_disjuncts_bound(keys, i as nat, dialect);
        lemma_disjunct_order(keys, i, dialect);
    }
    lemma_disjuncts_bound(keys, keys.len(), dialect);
    lemma_keyset_len(keys, keys.len());
    assert forall|row: Row|
        (forall|i: int|
            0 <= i < sort.len() ==> (#[trigger] key_order(sort, i, cursor, columns, row)) is Some)
            implies (#[trigger] condition.holds(params, dialect, row) == comes_behind(
        sort,
        0,
        cursor,
        columns,
        backward,
        row,
    )) by {
        let order = |i: int| key_order(sort, i, cursor, columns, row)->Some_0;
        assert forall|i: int| 0 <= i < keys.len() implies (#[trigger] parts[i]).holds(
            params,
            dialect,
            row,
        ) == disjunct_holds(keys, i, order) by {
            lemma_disjunct_holds(sort, keys, i, cursor, columns, dialect, row, order);
        }
        if keyset_holds(keys, order) {
            let i = choose|i: int| 0 <= i < keys.len() && #[trigger] disjunct_holds(keys, i, order);
            assert(parts[i].holds(params, dialect, row));
        }
        if condition.holds(params, dialect, row) {
            let i = choose|i: int|
                0 <= i < parts.len() && (#[trigger] parts[i]).holds(params, dialect, row);
            assert(disjunct_holds(keys, i, order));
        }
        keyset_selects_rows_beyond_the_cursor(sort, cursor, columns, backward, order);
        lemma_comes_behind(sort, keys, 0, cursor, columns, backward, row, order);
    }
    condition
}

proof fn lemma_disjunct_holds(
    sort: Seq<SortView>,
    keys: Seq<KeyView>,
    i: int,
    cursor: Map<Seq<char>, CursorValueView>,
    columns: Map<Seq<char>, Seq<char>>,
    dialect: Dialect,
    row: Row,
    order: spec_fn(int) -> int,
)
    requires
        0 <= i < keys.len() == sort.len(),
        forall|j: int|
            0 <= j < sort.len() ==> #[trigger] key_order(sort, j, cursor, columns, row) == Some(
                order(j),
            ),
        forall|j: int|
            0 <= j < sort.len() ==> (#[trigger] keys[j]).column == columns[sort[j].field]
                && keys[j].param == boundary(cursor[sort[j].field]),
    ensures
        disjunct(keys, i).holds(keyset_params(keys, keys.len()), dialect, row) == disjunct_holds(
            keys,
            i,
            order,
        ),
{
    let params = keyset_params(keys, keys.len());
    assert forall|j: int| 0 <= j <= i implies #[trigger] key_comparison(keys, i, j).holds(
        params,
        dialect,
        row,
    ) == relation_at(keys, i, j).holds(order(j)) by {
        lemma_keyset_param(keys, keys.len(), i, j);
        assert(key_order(sort, j, cursor, columns, row) == Some(order(j)));
        assert(keys[j].column == columns[sort[j].field]);
    }
    let parts = disjunct_comparisons(keys, i);
    let whole = disjunct(keys, i);
    if disjunct_holds(keys, i, order) {
        assert forall|j: int| 0 <= j < parts.len() implies (#[trigger] parts[j]).holds(
            params,
            dialect,
            row,
        ) by {
            assert(relation_at(keys, i, j).holds(order(j)));
            assert(parts[j] == key_comparison(keys, i, j));
        }
        assert(parts[0].holds(params, dialect, row));
    }
    if whole.holds(params, dialect, row) {
        if i > 0 {
            reveal_with_fuel(Condition::holds, 2);
            assert(whole->Group_parts == parts);
            assert forall|j: int| 0 <= j < parts.len() implies (#[trigger] parts[j]).holds(
                params,
                dialect,
                row,
            ) by {
                assert(whole->Group_parts[j].holds(params, dialect, row));
            }
        }
        assert forall|j: int| 0 <= j <= i implies (#[trigger] relation_at(keys, i, j)).holds(
            order(j),
        ) by {
            if i > 0 {
                assert(parts[j].holds(params, dialect, row));
            }
            assert(key_comparison(keys, i, j).holds(params, dialect, row));
        }
    }
}

} // verus!
