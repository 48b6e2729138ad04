//! SQL dialect rendering.
//!
//! The builder is written once; the [`Dialect`] renders the handful of things
//! that actually differ between backends: placeholder syntax, set membership,
//! and case-insensitive matching.
use crate::query::fragment::{param_views, FilterParam, ParamView};
use crate::text::{digits, digits_text};
use vstd::prelude::*;
use vstd::string::*;

verus! {

/// Target SQL dialect.
#[derive(Clone, Copy, Debug, PartialEq, Eq, Structural)]
pub enum Dialect {
    /// PostgreSQL: `$N` placeholders, `= ANY` / `!= ALL` set membership, native
    /// `ILIKE`.
    Postgres,
    /// SQLite: `?` placeholders, `IN (…)` / `NOT IN (…)` set membership, `LIKE`
    /// (ASCII case-insensitive) for both `like` and `ilike`.
    Sqlite,
}

impl Dialect {
    /// The placeholder of the `index`-th bound parameter.
    pub open spec fn placeholder_text(self, index: nat) -> Seq<char> {
        match self {
            Dialect::Postgres => "$"@ + digits(index),
            Dialect::Sqlite => "?"@,
        }
    }

    pub open spec fn ilike_text(self) -> Seq<char> {
        match self {
            Dialect::Postgres => "ILIKE"@,
            Dialect::Sqlite => "LIKE"@,
        }
    }

    /// Render the placeholder for the `index`-th bound parameter (1-based).
    /// Postgres is positional (`$index`); SQLite uses the anonymous `?`, so the
    /// index is consumed only to keep call sites uniform.
    pub fn placeholder(self, index: usize) -> (text: String)
        ensures
            text@ == self.placeholder_text(index as nat),
    {
        self.placeholder_at(index as u128)
    }

    /// Render the placeholder for a bound parameter.
    fn placeholder_at(self, index: u128) -> (text: String)
        ensures
            text@ == self.placeholder_text(index as nat),
    {
        match self {
            Dialect::Postgres => {
                let number = digits_text(index);
                "$".to_owned().concat(number.as_str())
            },
            Dialect::Sqlite => "?".to_owned(),
        }
    }

    /// Keyword for case-insensitive `LIKE`. SQLite's `LIKE` is already
    /// case-insensitive for ASCII, so it has no separate `ILIKE`.
    pub fn ilike_keyword(self) -> (keyword: &'static str)
        ensures
            keyword@ == self.ilike_text(),
    {
        match self {
            Dialect::Postgres => "ILIKE",
            Dialect::Sqlite => "LIKE",
        }
    }

    /// Whether this dialect binds an `IN` set as a single array parameter
    /// (Postgres `= ANY($1)`) rather than expanding to one placeholder per
    /// element (SQLite `IN (?, ?, …)`).
    pub fn binds_set_as_array(self) -> (array: bool)
        ensures
            array == (self == Dialect::Postgres),
    {
        match self {
            Dialect::Postgres => true,
            Dialect::Sqlite => false,
        }
    }

    /// Accumulator for bound parameters and their placeholders. Centralizes
    /// numbering so every call site renders placeholders the same way.
    pub fn params(self, start_param: usize) -> (builder: ParamBuilder)
        ensures
            builder@ == (BuilderView {
                dialect: self,
                params: Seq::empty(),
                next: first_index(start_param as nat),
            }),
    {
        let builder = ParamBuilder {
            dialect: self,
            params: Vec::new(),
            first: if start_param < 1 { 1 } else { start_param },
        };
        assert(builder@.params =~= Seq::empty());
        builder
    }
}

/// The index of the first bound parameter: indices start at one.
pub open spec fn first_index(start_param: nat) -> nat {
    if start_param < 1 {
        1
    } else {
        start_param
    }
}

/// Collects bound parameters in placeholder order and hands back the matching
/// placeholder text for each.
#[derive(Debug)]
pub struct ParamBuilder {
    dialect: Dialect,
    params: Vec<FilterParam>,
    first: usize,
}

/// What a [`ParamBuilder`] holds: the parameters bound so far, and the index of
/// the next one.
pub struct BuilderView {
    pub dialect: Dialect,
    pub params: Seq<ParamView>,
    pub next: nat,
}

impl View for ParamBuilder {
    type V = BuilderView;

    closed spec fn view(&self) -> BuilderView {
        BuilderView {
            dialect: self.dialect,
            params: param_views(self.params@),
            next: self.first as nat + self.params@.len(),
        }
    }
}

impl BuilderView {
    /// The builder after more parameters were bound.
    pub open spec fn with(self, more: Seq<ParamView>) -> BuilderView {
        BuilderView { params: self.params + more, next: self.next + more.len(), ..self }
    }
}

impl ParamBuilder {
    /// Bind one value and return its placeholder (`$N` or `?`).
    pub fn bind(&mut self, param: FilterParam) -> (placeholder: String)
        ensures
            placeholder@ == old(self)@.dialect.placeholder_text(old(self)@.next),
            final(self)@ == old(self)@.with(seq![param@]),
    {
        let index: u128 = self.first as u128 + self.params.len() as u128;
        let placeholder = self.dialect.placeholder_at(index);
        self.params.push(param);
        assert(param_views(self.params@) =~= old(self)@.params + seq![param@]);
        placeholder
    }

    /// The 1-based index the next bound parameter will take.
    pub fn next_index(&self) -> (index: usize)
        requires
            self@.next <= usize::MAX,
        ensures
            index == self@.next,
    {
        self.first + self.params.len()
    }

    /// Consume the builder, yielding the parameters in placeholder order.
    pub fn into_params(self) -> (params: Vec<FilterParam>)
        ensures
            param_views(params@) == self@.params,
    {
        self.params
    }
}

} // verus!
