//! The node context menu's decision: open the node's source file with the
//! configured command, or say why that cannot be done. The source file, a
//! path relative to the repository, is resolved against the directory of
//! the loaded graph.

use crate::graph::graph_node;
use crate::ingest::{has_id, position_of};
use crate::model::Model;
use crate::paths::{joined_path, parent_path, path_exists, path_join, path_parent};
use crate::settings::{opt_str, Settings};
use crate::text::{decimal, decimal_text, split_words, string_texts, words};
use vstd::prelude::*;
use vstd::string::{StrSliceExecFns, StringExecFns};

verus! {

/// The menu item's label.
pub const OPEN_FILE_LABEL: &'static str = "Open file";

/// Shown instead of the item when the node has no recorded source file.
pub const NO_SOURCE_HINT: &'static str = "No source file recorded for this component.";

/// Shown instead of the item when no command is configured.
pub const NO_COMMAND_HINT: &'static str = "Set the Open file command in Settings (⚙ Settings) first.";

/// What right-clicking a node offers: launching this argument vector
/// (program, its arguments, then the file), or a disabled item with the
/// reason.
#[derive(Debug, Clone, PartialEq, Eq)]
pub enum MenuAction {
    Spawn(Vec<String>),
    DisabledNoSource,
    DisabledNoCommand,
}

/// The file argument: the path, with `:line` appended when asked for and a
/// line is known.
pub open spec fn file_argument(path: Seq<char>, line: Option<u32>, append_line_number: bool) -> Seq<char> {
    if append_line_number && line is Some {
        path + ":"@ + decimal(line->0 as nat)
    } else {
        path
    }
}

/// The argument vector for `template` and the file `path`: the template's
/// words followed by the file argument; none when the template is blank.
pub open spec fn command_for(template: Seq<char>, path: Seq<char>, line: Option<u32>, append_line_number: bool) -> Option<Seq<Seq<char>>> {
    if words(template).len() == 0 {
        None
    } else {
        Some(words(template).push(file_argument(path, line, append_line_number)))
    }
}

/// Builds the argument vector that opens `path` with the command
/// `template`, split at whitespace; `None` for a blank template.
pub fn build_command(template: &str, path: &str, line: Option<u32>, append_line_number: bool) -> (r: Option<Vec<String>>)
    ensures
        match r {
            Some(v) => command_for(template@, path@, line, append_line_number) == Some(string_texts(v@)),
            None => command_for(template@, path@, line, append_line_number) is None,
        },
{
    let mut argv = split_words(template);
    if argv.len() == 0 {
        return None;
    }
    let mut file = String::from_str(path);
    if append_line_number {
        match line {
            Some(l) => {
                file.append(":");
                let digits = decimal_text(l as u128);
                file.append(digits.as_str());
            },
            None => {},
        }
    }
    let ghost before = argv@;
    argv.push(file);
    assert(string_texts(argv@) =~= string_texts(before).push(file_argument(path@, line, append_line_number)));
    Some(argv)
}

/// `c` is a decimal digit.
pub open spec fn is_digit(c: char) -> bool {
    '0' <= c && c <= '9'
}

/// The value of a text of decimal digits.
pub open spec fn digits_value(d: Seq<char>) -> nat
    decreases d.len(),
{
    if d.len() == 0 {
        0
    } else {
        digits_value(d.drop_last()) * 10 + ((d.last() as int) - ('0' as int)) as nat
    }
}

/// The line a Graphify source location names: `L` followed by decimal
/// digits, or the digits alone; none for any other text, or for a line
/// past `u32::MAX`.
pub open spec fn location_line(loc: Seq<char>) -> Option<nat> {
    let d = location_digits(loc);
    if d.len() > 0 && (forall|i: int| 0 <= i < d.len() ==> is_digit(#[trigger] d[i])) && digits_value(d)
        <= u32::MAX {
        Some(digits_value(d))
    } else {
        None
    }
}

/// A source location without its leading `L`, if any.
pub open spec fn location_digits(loc: Seq<char>) -> Seq<char> {
    if loc.len() > 0 && loc[0] == 'L' {
        loc.drop_first()
    } else {
        loc
    }
}

/// A prefix of digits is worth no more than the whole.
proof fn lemma_digits_value_grows(d: Seq<char>, k: int)
    requires
        0 <= k <= d.len(),
        forall|i: int| 0 <= i < d.len() ==> is_digit(#[trigger] d[i]),
    ensures
        digits_value(d.take(k)) <= digits_value(d),
    decreases d.len() - k,
{
    if k < d.len() {
        lemma_digits_value_grows(d, k + 1);
        assert(d.take(k + 1).drop_last() =~= d.take(k));
        assert(is_digit(d[k]));
    } else {
        assert(d.take(k) =~= d);
    }
}

/// The line number in a Graphify source location such as `L42`.
pub fn source_line(location: &str) -> (r: Option<u32>)
    ensures
        match r {
            Some(n) => location_line(location@) == Some(n as nat),
            None => location_line(location@) is None,
        },
{
    let n = location.unicode_len();
    let start: usize = if n > 0 && location.get_char(0) == 'L' { 1 } else { 0 };
    let ghost d = location_digits(location@);
    assert(d =~= location@.subrange(start as int, n as int));
    if start == n {
        return None;
    }
    let mut value: u64 = 0;
    let mut i: usize = start;
    while i < n
        invariant
            start <= i <= n,
            start < n,
            n == location@.len(),
            d == location@.subrange(start as int, n as int),
            d == location_digits(location@),
            forall|k: int| 0 <= k < i - start ==> is_digit(#[trigger] d[k]),
            value == digits_value(d.take(i - start)),
            value <= u32::MAX,
        decreases n - i,
    {
        let c = location.get_char(i);
        if c < '0' || c > '9' {
            assert(!is_digit(d[i - start]));
            assert(location_line(location@) is None);
            return None;
        }
        assert(d.take(i - start + 1).drop_last() =~= d.take(i - start));
        let next = value * 10 + ((c as u64) - ('0' as u64));
        if next > 4294967295u64 {
            proof {
                assert forall|k: int| 0 <= k < d.len() implies is_digit(#[trigger] d[k]) || !(forall|j: int|
                    0 <= j < d.len() ==> is_digit(#[trigger] d[j])) by {}
                if forall|j: int| 0 <= j < d.len() ==> is_digit(#[trigger] d[j]) {
                    lemma_digits_value_grows(d, i - start + 1);
                }
                assert(location_line(location@) is None);
            }
            return None;
        }
        value = next;
        i = i + 1;
    }
    assert(d.take(n - start) =~= d);
    Some(value as u32)
}

/// Where a source file may sit, in the order tried: under the parent of
/// the graph's directory (the repository root, for a graph exported into a
/// directory of its own), then under the graph's directory itself.
pub open spec fn candidates(source: Seq<char>, graph_dir: Option<Seq<char>>) -> Seq<Seq<char>> {
    match graph_dir {
        None => seq![],
        Some(d) => match parent_path(d) {
            Some(p) => seq![joined_path(p, source), joined_path(d, source)],
            None => seq![joined_path(d, source)],
        },
    }
}

/// `on_disk` answered `b` when asked about the path `p`.
pub open spec fn answered<F: Fn(&str) -> bool>(on_disk: F, p: Seq<char>, b: bool) -> bool {
    exists|c: &str| c@ == p && call_ensures(on_disk, (c,), b)
}

/// `r` is the first candidate for which `on_disk` answered yes, or `source`
/// itself when it answered no for each.
pub open spec fn resolves_to<F: Fn(&str) -> bool>(on_disk: F, source: Seq<char>, graph_dir: Option<Seq<char>>, r: Seq<char>) -> bool {
    let cs = candidates(source, graph_dir);
    ||| exists|k: int|
        0 <= k < cs.len() && r == cs[k] && #[trigger] answered(on_disk, cs[k], true) && forall|j: int|
            0 <= j < k ==> #[trigger] answered(on_disk, cs[j], false)
    ||| r == source && forall|j: int| 0 <= j < cs.len() ==> #[trigger] answered(on_disk, cs[j], false)
}

/// Asks `on_disk` about `p`.
fn ask<F: Fn(&str) -> bool>(on_disk: &F, p: &str) -> (r: bool)
    requires
        forall|c: &str| #[trigger] call_requires(*on_disk, (c,)),
    ensures
        answered(*on_disk, p@, r),
{
    let r = on_disk(p);
    assert(call_ensures(*on_disk, (p,), r));
    r
}

/// Resolves `source` against the graph's directory: the first candidate
/// that `on_disk` confirms, else `source` unchanged.
pub fn resolve_source_path_with<F: Fn(&str) -> bool>(source: &str, graph_dir: Option<&str>, on_disk: &F) -> (r: String)
    requires
        forall|c: &str| #[trigger] call_requires(*on_disk, (c,)),
    ensures
        resolves_to(*on_disk, source@, opt_str(graph_dir), r@),
{
    let ghost cs = candidates(source@, opt_str(graph_dir));
    let dir = match graph_dir {
        Some(d) => d,
        None => return String::from_str(source),
    };
    let under_root = match path_parent(dir) {
        Some(root) => {
            let c = path_join(root.as_str(), source);
            if ask(on_disk, c.as_str()) {
                assert(cs[0] == c@);
                return c;
            }
            assert(answered(*on_disk, cs[0], false));
            true
        },
        None => false,
    };
    let c = path_join(dir, source);
    let k: usize = if under_root { 1 } else { 0 };
    assert(cs[k as int] == c@);
    if ask(on_disk, c.as_str()) {
        return c;
    }
    assert(answered(*on_disk, cs[k as int], false));
    assert(cs.len() == k + 1);
    String::from_str(source)
}

/// `argv` launches the command of `settings` on the file `path`.
pub open spec fn launches(argv: Vec<String>, settings: Settings, path: Seq<char>, line: Option<u32>) -> bool {
    command_for(settings.open_file_command@, path, line, settings.append_line_number) == Some(
        string_texts(argv@),
    )
}

/// The decision, in this order: no source file disables the item (even
/// with no command configured); a blank command disables it; otherwise the
/// item launches the command on the resolved source file.
pub open spec fn plan_matches<F: Fn(&str) -> bool>(
    r: MenuAction,
    source: Option<Seq<char>>,
    line: Option<u32>,
    graph_dir: Option<Seq<char>>,
    settings: Settings,
    on_disk: F,
) -> bool {
    if source is None {
        r is DisabledNoSource
    } else if words(settings.open_file_command@).len() == 0 {
        r is DisabledNoCommand
    } else {
        r matches MenuAction::Spawn(argv) && exists|p: Seq<char>|
            #[trigger] resolves_to(on_disk, source->0, graph_dir, p) && launches(argv, settings, p, line)
    }
}

/// What right-clicking a node offers, with the existence of files on disk
/// asked of `on_disk`.
pub fn plan_open_with<F: Fn(&str) -> bool>(
    source_file: Option<&str>,
    line: Option<u32>,
    graph_dir: Option<&str>,
    settings: &Settings,
    on_disk: &F,
) -> (r: MenuAction)
    requires
        forall|c: &str| #[trigger] call_requires(*on_disk, (c,)),
    ensures
        plan_matches(r, opt_str(source_file), line, opt_str(graph_dir), *settings, *on_disk),
{
    let source = match source_file {
        Some(s) => s,
        None => return MenuAction::DisabledNoSource,
    };
    let probe = split_words(settings.open_file_command.as_str());
    if probe.len() == 0 {
        return MenuAction::DisabledNoCommand;
    }
    assert(words(settings.open_file_command@).len() > 0);
    let path = resolve_source_path_with(source, graph_dir, on_disk);
    match build_command(settings.open_file_command.as_str(), path.as_str(), line, settings.append_line_number) {
        Some(argv) => {
            assert(resolves_to(*on_disk, source@, opt_str(graph_dir), path@));
            assert(launches(argv, *settings, path@, line));
            assert(opt_str(source_file)->0 == source@);
            MenuAction::Spawn(argv)
        },
        None => MenuAction::DisabledNoCommand,
    }
}

/// `p` is `source` or one of its candidates.
pub open spec fn is_candidate_or_source(source: Seq<char>, graph_dir: Option<Seq<char>>, p: Seq<char>) -> bool {
    p == source || candidates(source, graph_dir).contains(p)
}

/// The disk check `plan_open` hands to `plan_open_with`: whether something
/// is on disk at `p` right now. What it answers depends on the disk, so
/// nothing is stated of it.
pub fn exists_on_disk(p: &str) -> bool {
    path_exists(p)
}

/// What right-clicking a node offers, asking the disk which candidate
/// exists: the plan of `plan_open_with` with the disk's answers. Those
/// answers cannot be named, so of a launch this is also stated on its own:
/// it opens `source_file` or one of its candidates.
pub fn plan_open(source_file: Option<&str>, line: Option<u32>, graph_dir: Option<&str>, settings: &Settings) -> (r: MenuAction)
    ensures
        source_file is None <==> r is DisabledNoSource,
        source_file is Some && words(settings.open_file_command@).len() == 0 <==> r is DisabledNoCommand,
        r matches MenuAction::Spawn(argv) ==> exists|p: Seq<char>|
            #[trigger] is_candidate_or_source(source_file->0@, opt_str(graph_dir), p) && launches(argv, *settings, p, line),
        plan_matches(r, opt_str(source_file), line, opt_str(graph_dir), *settings, exists_on_disk),
{
    let r = plan_open_with(source_file, line, graph_dir, settings, &exists_on_disk);
    proof {
        if r is Spawn {
            let argv = r->0;
            let p = choose|p: Seq<char>|
                #[trigger] resolves_to(exists_on_disk, source_file->0@, opt_str(graph_dir), p) && launches(argv, *settings, p, line);
            let cs = candidates(source_file->0@, opt_str(graph_dir));
            if p != source_file->0@ {
                let k = choose|k: int|
                    0 <= k < cs.len() && p == cs[k] && #[trigger] answered(exists_on_disk, cs[k], true) && forall|j: int|
                        0 <= j < k ==> #[trigger] answered(exists_on_disk, cs[j], false);
                assert(cs.contains(p));
            }
            assert(is_candidate_or_source(source_file->0@, opt_str(graph_dir), p));
        }
    }
    r
}

/// The source file and line recorded for node `id` in `m`: none for an
/// unknown id.
pub open spec fn node_source(m: Model, id: Seq<char>) -> (Option<Seq<char>>, Option<nat>) {
    if has_id(m.nodes(), id) {
        let n = m.nodes()[position_of(m.nodes(), id) as int];
        (n.source_file, match n.source_location {
            Some(loc) => location_line(loc),
            None => None,
        })
    } else {
        (None, None)
    }
}

/// What right-clicking node `id` offers: the plan for its recorded source
/// file and line (an unknown id has no source file).
pub fn plan_open_for_node(model: &Model, id: &str, graph_dir: Option<&str>, settings: &Settings) -> (r: MenuAction)
    requires
        model.wf(),
    ensures
        node_source(*model, id@).0 is None <==> r is DisabledNoSource,
        node_source(*model, id@).0 is Some && words(settings.open_file_command@).len() == 0 <==> r is DisabledNoCommand,
        r matches MenuAction::Spawn(argv) ==> exists|p: Seq<char>|
            #[trigger] is_candidate_or_source(node_source(*model, id@).0->0, opt_str(graph_dir), p) && launches(
                argv,
                *settings,
                p,
                match node_source(*model, id@).1 {
                    Some(l) => Some(l as u32),
                    None => None,
                },
            ),
        plan_matches(
            r,
            node_source(*model, id@).0,
            match node_source(*model, id@).1 {
                Some(l) => Some(l as u32),
                None => None,
            },
            opt_str(graph_dir),
            *settings,
            exists_on_disk,
        ),
{
    let ghost nodes = model.nodes();
    let i = match model.index.get(id) {
        Some(i) => *i,
        None => {
            proof {
                if has_id(nodes, id@) {
                    let k = choose|k: int| 0 <= k < nodes.len() && nodes[k].id == id@;
                    assert(model.index@.contains_key(nodes[k].id));
                }
            }
            return MenuAction::DisabledNoSource;
        },
    };
    assert(nodes[i as int].id == id@);
    assert(has_id(nodes, id@));
    assert(position_of(nodes, id@) == i) by {
        let p = position_of(nodes, id@);
        assert(model.index@[nodes[p as int].id] == p);
    }
    let node = graph_node(&model.graph, i).unwrap();
    assert(node@ == nodes[i as int]);
    let line = match &node.source_location {
        Some(loc) => source_line(loc.as_str()),
        None => None,
    };
    let source = match &node.source_file {
        Some(s) => Some(s.as_str()),
        None => None,
    };
    assert(opt_str(source) == node_source(*model, id@).0);
    let ghost want_line = match node_source(*model, id@).1 {
        Some(l) => Some(l as u32),
        None => None,
    };
    assert(line == want_line);
    let r = plan_open(source, line, graph_dir, settings);
    proof {
        if r is Spawn {
            let argv = r->0;
            let p = choose|p: Seq<char>|
                #[trigger] is_candidate_or_source(source->0@, opt_str(graph_dir), p) && launches(argv, *settings, p, line);
            assert(source->0@ == node_source(*model, id@).0->0);
            assert(is_candidate_or_source(node_source(*model, id@).0->0, opt_str(graph_dir), p));
        }
    }
    r
}

} // verus!
