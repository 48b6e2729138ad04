//! Keyset conditions: the `WHERE` body that resumes a page behind a cursor.
use crate::api_contract::numeral::{is_number, Numeral};
use crate::api_contract::query::{sort_views, SortClause, SortDirection, SortView};
use crate::query::cursor::{missing_reason, CursorState, CursorValue, CursorValueView};
use crate::query::dialect::{first_index, Dialect, ParamBuilder};
use crate::query::fragment::{
    param_views, BuildErrorView, FieldMap, FilterParam, ParamView, QueryBuildError,
};
use crate::text::{decimal, join, joined, texts};
use vstd::prelude::*;
use vstd::string::*;

verus! {

/// How a comparison relates a column to a value.
#[derive(Clone, Copy, Debug, PartialEq, Eq, Structural)]
pub enum Relation {
    Equal,
    Less,
    Greater,
}

impl Relation {
    pub open spec fn sign(self) -> Seq<char> {
        match self {
            Relation::Equal => "="@,
            Relation::Less => "<"@,
            Relation::Greater => ">"@,
        }
    }

    /// The relation holds of a column whose value compares to the given one as
    /// `order` to zero.
    pub open spec fn holds(self, order: int) -> bool {
        match self {
            Relation::Equal => order == 0,
            Relation::Less => order < 0,
            Relation::Greater => order > 0,
        }
    }

    fn sign_text(self) -> (sign: &'static str)
        ensures
            sign@ == self.sign(),
    {
        match self {
            Relation::Equal => "=",
            Relation::Less => "<",
            Relation::Greater => ">",
        }
    }
}

/// The side of the cursor on which a sort clause continues: forward and ascending
/// walks upward; any single flip reverses it.
pub open spec fn onward(direction: SortDirection, backward: bool) -> Relation {
    if (direction == SortDirection::Asc) == backward {
        Relation::Less
    } else {
        Relation::Greater
    }
}

fn comparison_op(direction: SortDirection, backward: bool) -> (relation: Relation)
    ensures
        relation == onward(direction, backward),
{
    let ascending = direction == SortDirection::Asc;
    if ascending == backward {
        Relation::Less
    } else {
        Relation::Greater
    }
}

/// The parameter that carries a cursor value.
pub open spec fn value_param(value: CursorValueView) -> Result<ParamView, BuildErrorView> {
    match value {
        CursorValueView::Null => Ok(ParamView::Null),
        CursorValueView::Bool(b) => Ok(ParamView::Bool(b)),
        CursorValueView::Unsigned(n) => Ok(ParamView::Number(decimal(n as int))),
        CursorValueView::Signed(n) => Ok(ParamView::Number(decimal(n as int))),
        CursorValueView::Float(text) => if is_number(text) {
            Ok(ParamView::Number(text))
        } else {
            Err(BuildErrorView::InvalidCursor("cursor number out of range"@))
        },
        CursorValueView::String(text) => Ok(ParamView::String(text)),
        CursorValueView::Nested(text) => Err(
            BuildErrorView::InvalidCursor("cursor values must be scalar"@),
        ),
    }
}

fn json_to_param(value: &CursorValue) -> (r: Result<FilterParam, QueryBuildError>)
    ensures
        match r {
            Ok(param) => value_param(value@) == Ok::<ParamView, BuildErrorView>(param@),
            Err(error) => value_param(value@) == Err::<ParamView, BuildErrorView>(error@),
        },
{
    match value {
        CursorValue::Null => Ok(FilterParam::Null),
        CursorValue::Bool(b) => Ok(FilterParam::Bool(*b)),
        CursorValue::Unsigned(n) => Ok(FilterParam::Number(Numeral::of_unsigned(*n))),
        CursorValue::Signed(n) => Ok(FilterParam::Number(Numeral::of_signed(*n))),
        CursorValue::Float(text) => match Numeral::parse(text.as_str()) {
            Some(numeral) => Ok(FilterParam::Number(numeral)),
            None => Err(QueryBuildError::InvalidCursor("cursor number out of range".to_owned())),
        },
        CursorValue::String(text) => Ok(FilterParam::String(text.clone())),
        CursorValue::Nested(_) => Err(
            QueryBuildError::InvalidCursor("cursor values must be scalar".to_owned()),
        ),
    }
}

/// One sort key of a cursor: its column, the side on which the page continues,
/// and the boundary value.
pub struct KeyView {
    pub column: Seq<char>,
    pub onward: Relation,
    pub param: ParamView,
}

/// One sort key, resolved against the field map and the cursor.
pub open spec fn resolved_key(
    clause: SortView,
    cursor: Map<Seq<char>, CursorValueView>,
    columns: Map<Seq<char>, Seq<char>>,
    backward: bool,
) -> Result<KeyView, BuildErrorView> {
    if !columns.contains_key(clause.field) {
        Err(BuildErrorView::UnmappedField(clause.field))
    } else if !cursor.contains_key(clause.field) {
        Err(BuildErrorView::InvalidCursor(missing_reason(clause.field)))
    } else {
        match value_param(cursor[clause.field]) {
            Err(fault) => Err(fault),
            Ok(param) => Ok(
                KeyView {
                    column: columns[clause.field],
                    onward: onward(clause.direction, backward),
                    param,
                },
            ),
        }
    }
}

/// The first `n` sort keys, or the first fault among them.
pub open spec fn resolved_keys(
    sort: Seq<SortView>,
    n: nat,
    cursor: Map<Seq<char>, CursorValueView>,
    columns: Map<Seq<char>, Seq<char>>,
    backward: bool,
) -> Result<Seq<KeyView>, BuildErrorView>
    decreases n,
{
    if n == 0 {
        Ok(Seq::empty())
    } else {
        match resolved_keys(sort, (n - 1) as nat, cursor, columns, backward) {
            Err(fault) => Err(fault),
            Ok(keys) => match resolved_key(sort[n - 1], cursor, columns, backward) {
                Err(fault) => Err(fault),
                Ok(key) => Ok(keys.push(key)),
            },
        }
    }
}

/// Disjunct `i` of a keyset condition: equality on the keys before `i`, and the
/// onward side on key `i`. Comparison `j` of it is on key `j`.
pub open spec fn relation_at(keys: Seq<KeyView>, i: int, j: int) -> Relation {
    if j < i {
        Relation::Equal
    } else {
        keys[i].onward
    }
}

/// How many parameters the disjuncts before `i` bind.
pub open spec fn bound_before(i: nat) -> nat
    decreases i,
{
    if i == 0 {
        0
    } else {
        bound_before((i - 1) as nat) + i
    }
}

/// The comparisons of disjunct `i`, whose first parameter has the index `next`.
pub open spec fn disjunct_parts(
    keys: Seq<KeyView>,
    i: int,
    dialect: Dialect,
    next: nat,
) -> Seq<Seq<char>> {
    Seq::new(
        (i + 1) as nat,
        |j: int|
            keys[j].column + " "@ + relation_at(keys, i, j).sign() + " "@
                + dialect.placeholder_text((next + j) as nat),
    )
}

/// The SQL of disjunct `i`.
pub open spec fn disjunct_sql(
    keys: Seq<KeyView>,
    i: int,
    dialect: Dialect,
    next: nat,
) -> Seq<char> {
    let parts = disjunct_parts(keys, i, dialect, next);
    if i == 0 {
        parts[0]
    } else {
        "("@ + joined(parts, " AND "@) + ")"@
    }
}

/// The parameters of the first `n` disjuncts: disjunct `i` binds the values of
/// the keys up to `i`.
pub open spec fn keyset_params(keys: Seq<KeyView>, n: nat) -> Seq<ParamView>
    decreases n,
{
    if n == 0 {
        Seq::empty()
    } else {
        keyset_params(keys, (n - 1) as nat) + key_params(keys, n)
    }
}

/// The values of the first `n` keys.
pub open spec fn key_params(keys: Seq<KeyView>, n: nat) -> Seq<ParamView> {
    Seq::new(n, |j: int| keys[j].param)
}

/// The SQL of a keyset condition whose first parameter has the index `next`.
pub open spec fn keyset_sql(keys: Seq<KeyView>, dialect: Dialect, next: nat) -> Seq<char> {
    "("@ + joined(
        Seq::new(
            keys.len(),
            |i: int| disjunct_sql(keys, i, dialect, next + bound_before(i as nat)),
        ),
        " OR "@,
    ) + ")"@
}

/// A keyset condition and its parameters.
pub open spec fn keyset(
    sort: Seq<SortView>,
    cursor: Map<Seq<char>, CursorValueView>,
    columns: Map<Seq<char>, Seq<char>>,
    dialect: Dialect,
    start_param: nat,
    backward: bool,
) -> Result<(Seq<char>, Seq<ParamView>), BuildErrorView> {
    if sort.len() == 0 {
        Err(
            BuildErrorView::InvalidCursor(
                "keyset pagination requires at least one sort clause"@,
            ),
        )
    } else {
        match resolved_keys(sort, sort.len(), cursor, columns, backward) {
            Err(fault) => Err(fault),
            Ok(keys) => Ok(
                (
                    keyset_sql(keys, dialect, first_index(start_param)),
                    keyset_params(keys, keys.len()),
                ),
            ),
        }
    }
}

proof fn lemma_keys_fault(
    sort: Seq<SortView>,
    n: nat,
    cursor: Map<Seq<char>, CursorValueView>,
    columns: Map<Seq<char>, Seq<char>>,
    backward: bool,
)
    requires
        n <= sort.len(),
    ensures
        resolved_keys(sort, n, cursor, columns, backward) is Err ==> resolved_keys(
            sort,
            sort.len(),
            cursor,
            columns,
            backward,
        ) == resolved_keys(sort, n, cursor, columns, backward),
    decreases sort.len() - n,
{
    if n < sort.len() {
        lemma_keys_fault(sort, n + 1, cursor, columns, backward);
    }
}

proof fn lemma_keys_len(
    sort: Seq<SortView>,
    n: nat,
    cursor: Map<Seq<char>, CursorValueView>,
    columns: Map<Seq<char>, Seq<char>>,
    backward: bool,
)
    ensures
        resolved_keys(sort, n, cursor, columns, backward) is Ok ==> resolved_keys(
            sort,
            n,
            cursor,
            columns,
            backward,
        )->Ok_0.len() == n,
    decreases n,
{
    if n > 0 {
        lemma_keys_len(sort, (n - 1) as nat, cursor, columns, backward);
    }
}

/// One sort key, resolved.
struct Key<'a> {
    column: &'a str,
    onward: Relation,
    param: FilterParam,
}

impl<'a> View for Key<'a> {
    type V = KeyView;

    closed spec fn view(&self) -> KeyView {
        KeyView { column: self.column@, onward: self.onward, param: self.param@ }
    }
}

spec fn key_views(keys: Seq<Key>) -> Seq<KeyView> {
    keys.map_values(|key: Key| key@)
}

/// Resolve every sort key against the field map and the cursor.
fn resolve_keys<'a>(
    sort: &[SortClause],
    cursor: &CursorState,
    map: &'a FieldMap,
    backward: bool,
) -> (r: Result<Vec<Key<'a>>, QueryBuildError>)
    ensures
        ({
            let wanted = resolved_keys(
                sort_views(sort@),
                sort@.len(),
                cursor@,
                map@,
                backward,
            );
            match r {
                Ok(keys) => wanted == Ok::<Seq<KeyView>, BuildErrorView>(key_views(keys@)),
                Err(error) => wanted == Err::<Seq<KeyView>, BuildErrorView>(error@),
            }
        }),
{
    let ghost all = sort_views(sort@);
    let mut keys: Vec<Key<'a>> = Vec::new();
    let mut i: usize = 0;
    assert(key_views(keys@) =~= Seq::empty());
    while i < sort.len()
        invariant
            i <= sort@.len(),
            all == sort_views(sort@),
            resolved_keys(all, i as nat, cursor@, map@, backward) == Ok::<
                Seq<KeyView>,
                BuildErrorView,
            >(key_views(keys@)),
        decreases sort@.len() - i,
    {
        let clause = &sort[i];
        let ghost before = keys@;
        proof {
            assert(all[i as int] == clause@);
            lemma_keys_fault(all, (i + 1) as nat, cursor@, map@, backward);
        }
        let column = match map.resolve(clause.field.as_str()) {
            Ok(column) => column,
            Err(error) => return Err(error),
        };
        let value = match cursor.lookup(clause.field.as_str()) {
            Ok(value) => value,
            Err(error) => return Err(error),
        };
        let param = match json_to_param(value) {
            Ok(param) => param,
            Err(error) => return Err(error),
        };
        let key = Key { column, onward: comparison_op(clause.direction, backward), param };
        keys.push(key);
        assert(key_views(keys@) =~= key_views(before).push(key@));
        i += 1;
    }
    Ok(keys)
}

/// Render disjunct `i`, binding its values.
fn render_disjunct<'a>(keys: &Vec<Key<'a>>, i: usize, params: &mut ParamBuilder) -> (sql: String)
    requires
        i < keys@.len(),
    ensures
        sql@ == disjunct_sql(
            key_views(keys@),
            i as int,
            old(params)@.dialect,
            old(params)@.next,
        ),
        final(params)@ == old(params)@.with(key_params(key_views(keys@), (i + 1) as nat)),
{
    let ghost all = key_views(keys@);
    let ghost start = params@;
    let ghost wanted = disjunct_parts(all, i as int, start.dialect, start.next);
    let mut parts: Vec<String> = Vec::new();
    let mut j: usize = 0;
    proof {
        assert(texts(parts@) =~= wanted.take(0));
        assert(start.params + key_params(all, 0) =~= start.params);
    }
    let count: usize = keys.len();
    while j <= i
        invariant
            j <= i + 1 <= count == keys@.len(),
            all == key_views(keys@),
            wanted == disjunct_parts(all, i as int, start.dialect, start.next),
            texts(parts@) == wanted.take(j as int),
            params@ == start.with(key_params(all, j as nat)),
        decreases i + 1 - j,
    {
        let key = &keys[j];
        let ghost before = parts@;
        assert(all[j as int] == key@);
        assert(all[i as int] == keys@[i as int]@);
        let relation = if j < i { Relation::Equal } else { keys[i].onward };
        let placeholder = params.bind(key.param.clone());
        let part = key.column.to_owned().concat(" ").concat(relation.sign_text()).concat(
            " ",
        ).concat(placeholder.as_str());
        parts.push(part);
        proof {
            assert(part@ == wanted[j as int]);
            assert(texts(parts@) =~= texts(before).push(part@));
            assert(wanted.take(j + 1) =~= wanted.take(j as int).push(wanted[j as int]));
            assert(params@.params =~= start.params + key_params(all, (j + 1) as nat));
        }
        j += 1;
    }
    assert(wanted.take(i + 1) =~= wanted);
    if i == 0 {
        assert(texts(parts@)[0] == parts@[0]@);
        parts.remove(0)
    } else {
        let conjunction = join(&parts, " AND ");
        "(".to_owned().concat(conjunction.as_str()).concat(")")
    }
}

/// Build the keyset `WHERE` body that resumes strictly after (`backward = false`)
/// or before (`backward = true`) the cursor, for the given sort.
///
/// The sort must be a total order (its trailing clause a unique key) for
/// pagination to be gap-free; this is the caller's responsibility. Returns the
/// clause body (no `WHERE` keyword) and the parameters in placeholder order.
pub fn keyset_condition(
    sort: &[SortClause],
    cursor: &CursorState,
    map: &FieldMap,
    dialect: Dialect,
    start_param: usize,
    backward: bool,
) -> (r: Result<(String, Vec<FilterParam>), QueryBuildError>)
    ensures
        ({
            let wanted = keyset(
                sort_views(sort@),
                cursor@,
                map@,
                dialect,
                start_param as nat,
                backward,
            );
            match r {
                Ok((clause, params)) => wanted == Ok::<
                    (Seq<char>, Seq<ParamView>),
                    BuildErrorView,
                >((clause@, param_views(params@))),
                Err(error) => wanted == Err::<(Seq<char>, Seq<ParamView>), BuildErrorView>(error@),
            }
        }),
{
    if sort.len() == 0 {
        return Err(
            QueryBuildError::InvalidCursor(
                "keyset pagination requires at least one sort clause".to_owned(),
            ),
        );
    }
    let keys = match resolve_keys(sort, cursor, map, backward) {
        Ok(keys) => keys,
        Err(error) => return Err(error),
    };
    let ghost all = key_views(keys@);
    let ghost next = first_index(start_param as nat);
    let ghost wanted = Seq::new(
        all.len(),
        |i: int| disjunct_sql(all, i, dialect, next + bound_before(i as nat)),
    );
    let mut params = dialect.params(start_param);
    let mut disjuncts: Vec<String> = Vec::new();
    let mut i: usize = 0;
    proof {
        lemma_keys_len(sort_views(sort@), sort@.len(), cursor@, map@, backward);
        assert(texts(disjuncts@) =~= wanted.take(0));
    }
    while i < keys.len()
        invariant
            i <= keys@.len() == sort@.len(),
            all == key_views(keys@),
            next == first_index(start_param as nat),
            wanted == Seq::new(
                all.len(),
                |i: int| disjunct_sql(all, i, dialect, next + bound_before(i as nat)),
            ),
            texts(disjuncts@) == wanted.take(i as int),
            params@.dialect == dialect,
            params@.params == keyset_params(all, i as nat),
            params@.next == next + bound_before(i as nat),
        decreases keys@.len() - i,
    {
        let ghost before = disjuncts@;
        let disjunct = render_disjunct(&keys, i, &mut params);
        disjuncts.push(disjunct);
        proof {
            assert(texts(disjuncts@) =~= texts(before).push(disjunct@));
            assert(wanted.take(i + 1) =~= wanted.take(i as int).push(wanted[i as int]));
        }
        i += 1;
    }
    assert(wanted.take(i as int) =~= wanted);
    let body = join(&disjuncts, " OR ");
    let clause = "(".to_owned().concat(body.as_str()).concat(")");
    Ok((clause, params.into_params()))
}

/// What a keyset condition means for a row: some disjunct of it holds, where
/// `order` says how the row's value for a key compares to the cursor's.
pub open spec fn keyset_holds(keys: Seq<KeyView>, order: spec_fn(int) -> int) -> bool {
    exists|i: int| 0 <= i < keys.len() && #[trigger] disjunct_holds(keys, i, order)
}

/// Every comparison of disjunct `i` holds of the row.
pub open spec fn disjunct_holds(keys: Seq<KeyView>, i: int, order: spec_fn(int) -> int) -> bool {
    forall|j: int| 0 <= j <= i ==> (#[trigger] relation_at(keys, i, j)).holds(order(j))
}

/// The row lies beyond the cursor in the order of the keys from `from` on: at the
/// first key in which it differs from the cursor, it lies on the onward side.
pub open spec fn beyond(keys: Seq<KeyView>, from: int, order: spec_fn(int) -> int) -> bool
    decreases keys.len() - from,
{
    if from < 0 || from >= keys.len() {
        false
    } else if order(from) == 0 {
        beyond(keys, from + 1, order)
    } else {
        keys[from].onward.holds(order(from))
    }
}

/// A keyset condition selects exactly the rows that lie strictly beyond the
/// cursor in the sort order: its disjuncts are those of which
/// [`keyset_condition`] writes the SQL.
pub proof fn keyset_selects_rows_beyond_the_cursor(
    sort: Seq<SortView>,
    cursor: Map<Seq<char>, CursorValueView>,
    columns: Map<Seq<char>, Seq<char>>,
    backward: bool,
    order: spec_fn(int) -> int,
)
    requires
        resolved_keys(sort, sort.len(), cursor, columns, backward) is Ok,
    ensures
        ({
            let keys = resolved_keys(sort, sort.len(), cursor, columns, backward)->Ok_0;
            keyset_holds(keys, order) <==> beyond(keys, 0, order)
        }),
{
    lemma_sides(sort, sort.len(), cursor, columns, backward);
    lemma_beyond(resolved_keys(sort, sort.len(), cursor, columns, backward)->Ok_0, 0, order);
}

/// The keys follow the sort clauses: each continues on the side of its direction.
proof fn lemma_sides(
    sort: Seq<SortView>,
    n: nat,
    cursor: Map<Seq<char>, CursorValueView>,
    columns: Map<Seq<char>, Seq<char>>,
    backward: bool,
)
    requires
        n <= sort.len(),
        resolved_keys(sort, n, cursor, columns, backward) is Ok,
    ensures
        ({
            let keys = resolved_keys(sort, n, cursor, columns, backward)->Ok_0;
            &&& keys.len() == n
            &&& forall|i: int|
                0 <= i < n ==> (#[trigger] keys[i]).onward == onward(sort[i].direction, backward)
        }),
    decreases n,
{
    if n > 0 {
        lemma_sides(sort, (n - 1) as nat, cursor, columns, backward);
    }
}

proof fn lemma_beyond(keys: Seq<KeyView>, from: int, order: spec_fn(int) -> int)
    requires
        0 <= from <= keys.len(),
        forall|i: int| 0 <= i < keys.len() ==> (#[trigger] keys[i]).onward != Relation::Equal,
        forall|j: int| 0 <= j < from ==> #[trigger] order(j) == 0,
    ensures
        keyset_holds(keys, order) <==> beyond(keys, from, order),
    decreases keys.len() - from,
{
    if from == keys.len() {
        if keyset_holds(keys, order) {
            let i = choose|i: int| 0 <= i < keys.len() && #[trigger] disjunct_holds(keys, i, order);
            assert(relation_at(keys, i, i).holds(order(i)));
        }
    } else if order(from) == 0 {
        lemma_beyond(keys, from + 1, order);
    } else {
        if keyset_holds(keys, order) {
            let i = choose|i: int| 0 <= i < keys.len() && #[trigger] disjunct_holds(keys, i, order);
            assert(relation_at(keys, i, i).holds(order(i)));
            if i > from {
                assert(relation_at(keys, i, from).holds(order(from)));
            }
            assert(i == from);
        }
        if beyond(keys, from, order) {
            assert forall|j: int| 0 <= j <= from implies (#[trigger] relation_at(
                keys,
                from,
                j,
            )).holds(order(j)) by {}
            assert(disjunct_holds(keys, from, order));
        }
    }
}

/// Forward and backward pages do not overlap and leave nothing out: every row
/// lies beyond the cursor in exactly one direction, or has the cursor's values in
/// all sort keys.
pub proof fn forward_and_backward_split_the_rows(
    sort: Seq<SortView>,
    cursor: Map<Seq<char>, CursorValueView>,
    columns: Map<Seq<char>, Seq<char>>,
    order: spec_fn(int) -> int,
)
    requires
        resolved_keys(sort, sort.len(), cursor, columns, false) is Ok,
    ensures
        ({
            let forward = resolved_keys(sort, sort.len(), cursor, columns, false)->Ok_0;
            let backward = resolved_keys(sort, sort.len(), cursor, columns, true)->Ok_0;
            let same = forall|i: int| 0 <= i < sort.len() ==> #[trigger] order(i) == 0;
            &&& resolved_keys(sort, sort.len(), cursor, columns, true) is Ok
            &&& same <==> !keyset_holds(forward, order) && !keyset_holds(backward, order)
            &&& !(keyset_holds(forward, order) && keyset_holds(backward, order))
        }),
{
    let n = sort.len();
    lemma_both_ways(sort, n, cursor, columns);
    lemma_sides(sort, n, cursor, columns, false);
    lemma_sides(sort, n, cursor, columns, true);
    let forward = resolved_keys(sort, n, cursor, columns, false)->Ok_0;
    let backward = resolved_keys(sort, n, cursor, columns, true)->Ok_0;
    keyset_selects_rows_beyond_the_cursor(sort, cursor, columns, false, order);
    keyset_selects_rows_beyond_the_cursor(sort, cursor, columns, true, order);
    lemma_split(sort, forward, backward, 0, order);
}

/// What resolves forward resolves backward.
proof fn lemma_both_ways(
    sort: Seq<SortView>,
    n: nat,
    cursor: Map<Seq<char>, CursorValueView>,
    columns: Map<Seq<char>, Seq<char>>,
)
    requires
        n <= sort.len(),
        resolved_keys(sort, n, cursor, columns, false) is Ok,
    ensures
        resolved_keys(sort, n, cursor, columns, true) is Ok,
    decreases n,
{
    if n > 0 {
        lemma_both_ways(sort, (n - 1) as nat, cursor, columns);
    }
}

proof fn lemma_split(
    sort: Seq<SortView>,
    forward: Seq<KeyView>,
    backward: Seq<KeyView>,
    from: int,
    order: spec_fn(int) -> int,
)
    requires
        forward.len() == backward.len() == sort.len(),
        forall|i: int|
            0 <= i < sort.len() ==> (#[trigger] forward[i]).onward == onward(
                sort[i].direction,
                false,
            ),
        forall|i: int|
            0 <= i < sort.len() ==> (#[trigger] backward[i]).onward == onward(
                sort[i].direction,
                true,
            ),
        0 <= from <= forward.len(),
        forall|j: int| 0 <= j < from ==> #[trigger] order(j) == 0,
    ensures
        ({
            let same = forall|i: int| 0 <= i < forward.len() ==> #[trigger] order(i) == 0;
            &&& same <==> !beyond(forward, from, order) && !beyond(backward, from, order)
            &&& !(beyond(forward, from, order) && beyond(backward, from, order))
        }),
    decreases forward.len() - from,
{
    if from < forward.len() {
        assert(forward[from].onward != Relation::Equal);
        assert(backward[from].onward != Relation::Equal);
        if order(from) == 0 {
            lemma_split(sort, forward, backward, from + 1, order);
        }
    }
}

proof fn lemma_params_len(keys: Seq<KeyView>, n: nat)
    ensures
        keyset_params(keys, n).len() == bound_before(n),
        2 * bound_before(n) == n * (n + 1),
    decreases n,
{
    if n > 0 {
        lemma_params_len(keys, (n - 1) as nat);
        assert((n - 1) * n + 2 * n == n * (n + 1)) by (nonlinear_arith)
            requires
                n > 0,
        ;
    }
}

/// A keyset condition over `n` sort clauses binds `n (n + 1) / 2` parameters: the
/// disjunct of each key binds that key and every key before it.
pub proof fn keyset_binds_every_prefix(
    sort: Seq<SortView>,
    cursor: Map<Seq<char>, CursorValueView>,
    columns: Map<Seq<char>, Seq<char>>,
    dialect: Dialect,
    start_param: nat,
    backward: bool,
)
    requires
        keyset(sort, cursor, columns, dialect, start_param, backward) is Ok,
    ensures
        2 * keyset(sort, cursor, columns, dialect, start_param, backward)->Ok_0.1.len()
            == sort.len() * (sort.len() + 1),
{
    lemma_keys_len(sort, sort.len(), cursor, columns, backward);
    lemma_params_len(
        resolved_keys(sort, sort.len(), cursor, columns, backward)->Ok_0,
        sort.len(),
    );
}

} // verus!
