//! The layering rule of a workspace: a foundation crate never depends on a product
//! or component above it.
use crate::scan::{chars_stand_at, find_chars, first_at, lemma_first_at, stands_at};
use crate::text::{
    chars_of, is_white, same_text, slice_text, split, split_on, texts, trim, trimmed,
};
use vstd::prelude::*;
use vstd::string::*;

verus! {

/// Crates that legitimately live in the foundation; dependencies on these are
/// fine.
pub open spec fn foundation_crates() -> Seq<Seq<char>> {
    seq![
        "awaken-api-contract"@,
        "awaken-connection"@,
        "awaken-connection-auth"@,
        "awaken-connection-transports"@,
        "awaken-scoped-migration"@,
        "xtask"@,
    ]
}

/// The line opens a section of the manifest.
pub open spec fn opens_section(line: Seq<char>) -> bool {
    line.len() > 0 && line[0] == '['
}

/// The line opens a section of dependencies.
pub open spec fn opens_dependencies(line: Seq<char>) -> bool {
    opens_section(line) && first_at(line, 0, "dependencies"@) < line.len()
}

/// Whether the line behind the first `n` lines stands in a section of
/// dependencies.
pub open spec fn in_dependencies(lines: Seq<Seq<char>>, n: nat) -> bool
    decreases n,
{
    if n == 0 {
        false
    } else {
        let line = trimmed(lines[n - 1]);
        if opens_section(line) {
            opens_dependencies(line)
        } else {
            in_dependencies(lines, (n - 1) as nat)
        }
    }
}

pub open spec fn ends_name(c: char) -> bool {
    c == '=' || c == '.' || c == ' ' || c == '\t'
}

/// The end of the dependency name that starts at `from`.
pub open spec fn name_end(line: Seq<char>, from: int) -> int
    decreases line.len() - from,
{
    if 0 <= from < line.len() && !ends_name(line[from]) {
        name_end(line, from + 1)
    } else {
        from
    }
}

/// The dependency that a line of a manifest names.
pub open spec fn dependency_name(line: Seq<char>) -> Seq<char> {
    trimmed(line.take(name_end(line, 0)))
}

/// The dependency is one of the organization's crates that stands above the
/// foundation.
pub open spec fn is_upward(name: Seq<char>) -> bool {
    &&& stands_at(name, 0, "awaken-"@) || stands_at(name, 0, "oversight-"@)
    &&& !foundation_crates().contains(name)
}

/// Line `i` of a manifest names a dependency above the foundation.
pub open spec fn line_violates(lines: Seq<Seq<char>>, i: int) -> bool {
    let line = trimmed(lines[i]);
    &&& !opens_section(line)
    &&& in_dependencies(lines, i as nat)
    &&& line.len() > 0
    &&& line[0] != '#'
    &&& is_upward(dependency_name(line))
}

/// What is reported of a dependency above the foundation.
pub open spec fn violation(path: Seq<char>, name: Seq<char>) -> Seq<char> {
    path + ": depends on `"@ + name + "` (above the foundation tier)"@
}

/// What is reported of the first `n` lines of a manifest.
pub open spec fn violations_of(path: Seq<char>, lines: Seq<Seq<char>>, n: nat) -> Seq<Seq<char>>
    decreases n,
{
    if n == 0 {
        Seq::empty()
    } else {
        let before = violations_of(path, lines, (n - 1) as nat);
        if line_violates(lines, n - 1) {
            before.push(violation(path, dependency_name(trimmed(lines[n - 1]))))
        } else {
            before
        }
    }
}

/// What is reported of a manifest.
pub open spec fn manifest_violations(path: Seq<char>, text: Seq<char>) -> Seq<Seq<char>> {
    let lines = split_on(text, '\n');
    violations_of(path, lines, lines.len())
}

/// The dependency that a line of a manifest names.
fn dependency_of(line: &str) -> (name: String)
    ensures
        name@ == dependency_name(line@),
{
    let chars = chars_of(line);
    let mut end: usize = 0;
    while end < chars.len() && !(chars[end] == '=' || chars[end] == '.' || chars[end] == ' '
        || chars[end] == '\t')
        invariant
            end <= chars@.len(),
            name_end(chars@, 0) == name_end(chars@, end as int),
        decreases chars@.len() - end,
    {
        end += 1;
    }
    let raw = slice_text(&chars, 0, end);
    assert(raw@ =~= line@.take(end as int));
    trim(raw.as_str())
}

fn upward(name: &str) -> (above: bool)
    ensures
        above == is_upward(name@),
{
    let chars = chars_of(name);
    let ours = chars_of("awaken-");
    let theirs = chars_of("oversight-");
    if !chars_stand_at(&chars, 0, ours.as_slice()) && !chars_stand_at(
        &chars,
        0,
        theirs.as_slice(),
    ) {
        return false;
    }
    let foundation: Vec<&str> = vec![
        "awaken-api-contract",
        "awaken-connection",
        "awaken-connection-auth",
        "awaken-connection-transports",
        "awaken-scoped-migration",
        "xtask",
    ];
    let ghost known = foundation_crates();
    assert(foundation@.map_values(|n: &str| n@) =~= known);
    let mut i: usize = 0;
    while i < foundation.len()
        invariant
            i <= foundation@.len(),
            known == foundation_crates(),
            foundation@.map_values(|n: &str| n@) == known,
            forall|k: int| 0 <= k < i ==> #[trigger] known[k] != name@,
        decreases foundation@.len() - i,
    {
        assert(known[i as int] == foundation@[i as int]@);
        if same_text(foundation[i], name) {
            return false;
        }
        i += 1;
    }
    true
}

/// What is to be reported of the manifest `text` that lies at `path`: every line
/// of its dependency sections that names a crate above the foundation.
pub fn check_manifest(path: &str, text: &str) -> (violations: Vec<String>)
    ensures
        texts(violations@) == manifest_violations(path@, text@),
{
    let lines = split(text, '\n');
    let ghost all = split_on(text@, '\n');
    let section = chars_of("dependencies");
    let mut violations: Vec<String> = Vec::new();
    let mut in_deps = false;
    let mut i: usize = 0;
    assert(texts(violations@) =~= Seq::empty());
    while i < lines.len()
        invariant
            i <= lines@.len(),
            all == split_on(text@, '\n'),
            all == texts(lines@),
            section@ == "dependencies"@,
            in_deps == in_dependencies(all, i as nat),
            texts(violations@) == violations_of(path@, all, i as nat),
        decreases lines@.len() - i,
    {
        let ghost before = violations@;
        assert(all[i as int] == lines@[i as int]@);
        let line = trim(lines[i].as_str());
        let chars = chars_of(line.as_str());
        if chars.len() > 0 && chars[0] == '[' {
            in_deps = find_chars(&chars, 0, section.as_slice()) < chars.len();
        } else if in_deps && chars.len() > 0 && chars[0] != '#' {
            let name = dependency_of(line.as_str());
            if upward(name.as_str()) {
                let report = path.to_owned().concat(": depends on `").concat(
                    name.as_str(),
                ).concat("` (above the foundation tier)");
                violations.push(report);
                assert(texts(violations@) =~= texts(before).push(report@));
            }
        }
        i += 1;
    }
    violations
}

proof fn lemma_reported(path: Seq<char>, lines: Seq<Seq<char>>, n: nat)
    requires
        n <= lines.len(),
    ensures
        violations_of(path, lines, n).len() == 0 <==> forall|i: int|
            0 <= i < n ==> !#[trigger] line_violates(lines, i),
    decreases n,
{
    if n > 0 {
        lemma_reported(path, lines, (n - 1) as nat);
    }
}

/// A manifest passes exactly when no line of its dependency sections names a crate
/// above the foundation.
pub proof fn silence_means_no_upward_dependency(path: Seq<char>, text: Seq<char>)
    ensures
        manifest_violations(path, text).len() == 0 <==> forall|i: int|
            0 <= i < split_on(text, '\n').len() ==> !#[trigger] line_violates(
                split_on(text, '\n'),
                i,
            ),
{
    let lines = split_on(text, '\n');
    lemma_reported(path, lines, lines.len());
}

/// The name is of the organization, and not of its foundation.
pub open spec fn stands_above(name: Seq<char>) -> bool {
    &&& name.len() >= 7 && name.take(7) == "awaken-"@ || name.len() >= 10 && name.take(10)
        == "oversight-"@
    &&& name != "awaken-api-contract"@
    &&& name != "awaken-connection"@
    &&& name != "awaken-connection-auth"@
    &&& name != "awaken-connection-transports"@
    &&& name != "awaken-scoped-migration"@
    &&& name != "xtask"@
}

/// The line is a section header.
pub open spec fn is_header(line: Seq<char>) -> bool {
    trimmed(line).len() > 0 && trimmed(line)[0] == '['
}

/// The line names a dependency: the name, and behind it nothing, or what ends a name.
pub open spec fn names_dependency(line: Seq<char>, name: Seq<char>) -> bool {
    let text = trimmed(line);
    &&& 0 < name.len() <= text.len()
    &&& text.take(name.len() as int) == name
    &&& name[0] != '[' && name[0] != '#'
    &&& forall|i: int|
        0 <= i < name.len() ==> #[trigger] name[i] != '=' && name[i] != '.' && !is_white(name[i])
    &&& name.len() < text.len() ==> {
        let next = text[name.len() as int];
        next == '=' || next == '.' || next == ' ' || next == '\t'
    }
}

proof fn lemma_name_end(line: Seq<char>, from: int, end: int)
    requires
        0 <= from <= end <= line.len(),
        forall|i: int| from <= i < end ==> !ends_name(#[trigger] line[i]),
        end < line.len() ==> ends_name(line[end]),
    ensures
        name_end(line, from) == end,
    decreases end - from,
{
    if from < end {
        assert(!ends_name(line[from]));
        lemma_name_end(line, from + 1, end);
    }
}

proof fn lemma_in_section(lines: Seq<Seq<char>>, h: int, i: int)
    requires
        0 <= h < i <= lines.len(),
        is_header(lines[h]),
        forall|j: int| h < j < i ==> !is_header(#[trigger] lines[j]),
    ensures
        in_dependencies(lines, i as nat) == opens_dependencies(trimmed(lines[h])),
    decreases i,
{
    if h + 1 < i {
        assert(!is_header(lines[i - 1]));
        lemma_in_section(lines, h, i - 1);
    }
}

proof fn lemma_listed(path: Seq<char>, lines: Seq<Seq<char>>, n: nat, i: int)
    requires
        0 <= i < n <= lines.len(),
        line_violates(lines, i),
    ensures
        violations_of(path, lines, n).contains(
            violation(path, dependency_name(trimmed(lines[i]))),
        ),
    decreases n,
{
    let report = violation(path, dependency_name(trimmed(lines[i])));
    let all = violations_of(path, lines, n);
    if i == n - 1 {
        assert(all.last() == report);
    } else {
        lemma_listed(path, lines, (n - 1) as nat, i);
        let before = violations_of(path, lines, (n - 1) as nat);
        let k = choose|k: int| 0 <= k < before.len() && before[k] == report;
        assert(all[k] == report);
    }
}

/// A dependency above the foundation is reported wherever it stands: line `i` names it,
/// line `h` is the last section header before, and that header speaks of dependencies.
/// Nothing is reported of a line that names another dependency, or that stands in
/// another section.
pub proof fn upward_dependencies_are_reported(
    path: Seq<char>,
    text: Seq<char>,
    h: int,
    i: int,
    name: Seq<char>,
)
    requires
        0 <= h < i < split_on(text, '\n').len(),
        is_header(split_on(text, '\n')[h]),
        forall|j: int| h < j < i ==> !is_header(#[trigger] split_on(text, '\n')[j]),
        names_dependency(split_on(text, '\n')[i], name),
    ensures
        ({
            let lines = split_on(text, '\n');
            let dependencies = exists|k: int| #[trigger]
                stands_at(trimmed(lines[h]), k, "dependencies"@);
            &&& line_violates(lines, i) <==> dependencies && stands_above(name)
            &&& dependencies && stands_above(name) ==> manifest_violations(path, text).contains(
                path + ": depends on `"@ + name + "` (above the foundation tier)"@,
            )
        }),
{
    reveal_strlit("awaken-");
    reveal_strlit("oversight-");
    reveal_strlit("dependencies");
    let lines = split_on(text, '\n');
    let head = trimmed(lines[h]);
    let line = trimmed(lines[i]);
    let n = name.len() as int;
    lemma_in_section(lines, h, i);
    lemma_first_at(head, 0, "dependencies"@);
    if exists|k: int| #[trigger] stands_at(head, k, "dependencies"@) {
        let k = choose|k: int| #[trigger] stands_at(head, k, "dependencies"@);
        assert(first_at(head, 0, "dependencies"@) < head.len());
    }
    assert forall|k: int| 0 <= k < n implies !ends_name(#[trigger] line[k]) by {
        assert(line.take(n)[k] == name[k]);
    }
    lemma_name_end(line, 0, n);
    assert(line[0] == line.take(n)[0]);
    assert(trimmed(name) == name) by {
        assert(!is_white(name[0]) && !is_white(name[n - 1]));
    }
    assert(dependency_name(line) == name);
    assert(stands_at(name, 0, "awaken-"@) == (name.len() >= 7 && name.take(7) == "awaken-"@)) by {
        if name.len() >= 7 {
            assert(name.subrange(0, 7) =~= name.take(7));
        }
    }
    assert(stands_at(name, 0, "oversight-"@) == (name.len() >= 10 && name.take(10)
        == "oversight-"@)) by {
        if name.len() >= 10 {
            assert(name.subrange(0, 10) =~= name.take(10));
        }
    }
    let known = foundation_crates();
    assert(known[0] == "awaken-api-contract"@ && known[1] == "awaken-connection"@ && known[2]
        == "awaken-connection-auth"@ && known[3] == "awaken-connection-transports"@ && known[4]
        == "awaken-scoped-migration"@ && known[5] == "xtask"@);
    assert(is_upward(name) == stands_above(name));
    if line_violates(lines, i) {
        lemma_listed(path, lines, lines.len(), i);
    }
}

} // verus!
