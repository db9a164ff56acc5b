//! The incremental side of the bootstrap compiler: which modules a change
//! invalidates, and the byte range an edit replaced.

use vstd::prelude::*;
use crate::text_set::{
    lemma_set_insert_contains, lemma_set_insert_sorted, set_insert, strictly_sorted, text_set_contains,
    text_set_insert, texts,
};

verus! {

/// What the last change invalidated: the modules reparsed and retyped.
#[derive(Clone, Debug, Default, PartialEq, Eq)]
pub struct InvalidationReport {
    pub reparsed: Vec<String>,
    pub retyped: Vec<String>,
}

/// A dependency graph: each module with the modules it imports.
pub open spec fn graph_view(graph: Seq<(String, Vec<String>)>) -> Seq<(Seq<char>, Seq<Seq<char>>)> {
    Seq::new(graph.len(), |i: int| (graph[i].0@, texts(graph[i].1@)))
}

/// Whether `s` is closed under consumers: a module that imports a module of
/// `s` is in `s` too.
pub open spec fn closed_under_consumers(graph: Seq<(Seq<char>, Seq<Seq<char>>)>, s: Set<Seq<char>>) -> bool {
    forall|i: int, m: Seq<char>|
        0 <= i < graph.len() && #[trigger] s.contains(m) && #[trigger] graph[i].1.contains(m) ==> s.contains(
            graph[i].0,
        )
}

/// The modules that transitively import one of `seeds`, and the seeds: the
/// least set that holds the seeds and is closed under consumers.
pub open spec fn is_reverse_closure(
    graph: Seq<(Seq<char>, Seq<Seq<char>>)>,
    seeds: Set<Seq<char>>,
    r: Set<Seq<char>>,
) -> bool {
    &&& seeds.subset_of(r)
    &&& closed_under_consumers(graph, r)
    &&& forall|s: Set<Seq<char>>| seeds.subset_of(s) && closed_under_consumers(graph, s) ==> r.subset_of(s)
}

/// The number of graph entries, from index `k`, whose module is not in `s`.
pub open spec fn outside_count(graph: Seq<(Seq<char>, Seq<Seq<char>>)>, s: Seq<Seq<char>>, k: int) -> nat
    decreases graph.len() - k,
{
    if k < 0 || k >= graph.len() {
        0
    } else {
        (if s.contains(graph[k].0) { 0nat } else { 1nat }) + outside_count(graph, s, k + 1)
    }
}

proof fn lemma_outside_shrinks(
    graph: Seq<(Seq<char>, Seq<Seq<char>>)>,
    a: Seq<Seq<char>>,
    b: Seq<Seq<char>>,
    k: int,
    i: int,
)
    requires
        forall|m: Seq<char>| a.contains(m) ==> b.contains(m),
        0 <= k,
    ensures
        outside_count(graph, b, k) <= outside_count(graph, a, k),
        k <= i < graph.len() && !a.contains(graph[i].0) && b.contains(graph[i].0) ==> outside_count(graph, b, k)
            < outside_count(graph, a, k),
    decreases graph.len() - k,
{
    if k < graph.len() {
        lemma_outside_shrinks(graph, a, b, k + 1, i);
    }
}

/// Whether some module of `deps` is in `s`.
fn meets(deps: &Vec<String>, s: &Vec<String>) -> (r: bool)
    ensures
        r == exists|m: Seq<char>| texts(deps@).contains(m) && texts(s@).contains(m),
{
    let mut j: usize = 0;
    while j < deps.len()
        invariant
            j <= deps@.len(),
            forall|k: int| 0 <= k < j ==> !texts(s@).contains(#[trigger] texts(deps@)[k]),
        decreases deps@.len() - j,
    {
        if text_set_contains(s, deps[j].as_str()) {
            assert(texts(deps@).contains(texts(deps@)[j as int]));
            return true;
        }
        j = j + 1;
    }
    assert forall|m: Seq<char>| texts(deps@).contains(m) implies !texts(s@).contains(m) by {
        let k = choose|k: int| 0 <= k < texts(deps@).len() && texts(deps@)[k] == m;
    }
    false
}

/// The modules that a change of `seeds` invalidates: the seeds and, through
/// the graph, every module that imports one of them, transitively. The
/// answer is a set listed in order.
pub fn reverse_closure(graph: &Vec<(String, Vec<String>)>, seeds: &Vec<String>) -> (r: Vec<String>)
    ensures
        strictly_sorted(texts(r@)),
        is_reverse_closure(graph_view(graph@), texts(seeds@).to_set(), texts(r@).to_set()),
{
    let ghost g = graph_view(graph@);
    let ghost seed_set = texts(seeds@).to_set();
    let mut selected: Vec<String> = Vec::new();
    let mut i: usize = 0;
    while i < seeds.len()
        invariant
            i <= seeds@.len(),
            strictly_sorted(texts(selected@)),
            forall|m: Seq<char>| texts(selected@).contains(m) <==> texts(seeds@).take(i as int).contains(m),
        decreases seeds@.len() - i,
    {
        let ghost before = texts(selected@);
        proof {
            lemma_set_insert_sorted(before, seeds@[i as int]@);
            assert forall|m: Seq<char>| set_insert(before, seeds@[i as int]@).contains(m)
                <==> texts(seeds@).take(i + 1).contains(m) by {
                lemma_set_insert_contains(before, seeds@[i as int]@, m);
                let t = texts(seeds@).take(i as int);
                let t1 = texts(seeds@).take(i + 1);
                assert(t1 =~= t.push(seeds@[i as int]@));
                if t.contains(m) {
                    let k = choose|k: int| 0 <= k < t.len() && t[k] == m;
                    assert(t1[k] == m);
                }
                if m == seeds@[i as int]@ {
                    assert(t1[i as int] == m);
                }
                if t1.contains(m) && m != seeds@[i as int]@ {
                    let k = choose|k: int| 0 <= k < t1.len() && t1[k] == m;
                    assert(t[k] == m);
                }
            }
        }
        text_set_insert(&mut selected, seeds[i].clone());
        i = i + 1;
    }
    assert(texts(seeds@).take(seeds@.len() as int) =~= texts(seeds@));
    let mut changed = true;
    while changed
        invariant
            g == graph_view(graph@),
            strictly_sorted(texts(selected@)),
            seed_set.subset_of(texts(selected@).to_set()),
            forall|s: Set<Seq<char>>|
                seed_set.subset_of(s) && closed_under_consumers(g, s) ==> texts(selected@).to_set().subset_of(s),
            !changed ==> closed_under_consumers(g, texts(selected@).to_set()),
        decreases outside_count(g, texts(selected@), 0) + (if changed { 1nat } else { 0nat }),
    {
        changed = false;
        let ghost start = texts(selected@);
        let mut k: usize = 0;
        while k < graph.len()
            invariant
                g == graph_view(graph@),
                k <= graph@.len(),
                strictly_sorted(texts(selected@)),
                seed_set.subset_of(texts(selected@).to_set()),
                forall|s: Set<Seq<char>>|
                    seed_set.subset_of(s) && closed_under_consumers(g, s) ==> texts(selected@).to_set().subset_of(s),
                forall|m: Seq<char>| start.contains(m) ==> texts(selected@).contains(m),
                changed ==> outside_count(g, texts(selected@), 0) < outside_count(g, start, 0),
                !changed ==> texts(selected@) == start,
                !changed ==> forall|j: int, m: Seq<char>|
                    0 <= j < k && start.contains(m) && #[trigger] g[j].1.contains(m) ==> start.contains(g[j].0),
            decreases graph@.len() - k,
        {
            assert(g[k as int] == (graph@[k as int].0@, texts(graph@[k as int].1@)));
            let consumer = &graph[k].0;
            if !text_set_contains(&selected, consumer.as_str()) && meets(&graph[k].1, &selected) {
                let ghost before = texts(selected@);
                proof {
                    lemma_set_insert_sorted(before, consumer@);
                    assert forall|m: Seq<char>| set_insert(before, consumer@).contains(m) <==> (before.contains(m)
                        || m == consumer@) by {
                        lemma_set_insert_contains(before, consumer@, m);
                    }
                    assert forall|s: Set<Seq<char>>|
                        seed_set.subset_of(s) && closed_under_consumers(g, s) implies set_insert(
                        before,
                        consumer@,
                    ).to_set().subset_of(s) by {
                        let m = choose|m: Seq<char>| texts(graph@[k as int].1@).contains(m) && before.contains(m);
                        assert(before.to_set().contains(m));
                        assert(s.contains(m));
                        assert(g[k as int].1.contains(m));
                        assert forall|x: Seq<char>| set_insert(before, consumer@).to_set().contains(x) implies s.contains(
                            x,
                        ) by {
                            if x != consumer@ {
                                assert(before.to_set().contains(x));
                            }
                        }
                    }
                    lemma_outside_shrinks(g, before, set_insert(before, consumer@), 0, k as int);
                    lemma_outside_shrinks(g, start, before, 0, k as int);
                }
                text_set_insert(&mut selected, consumer.clone());
                changed = true;
            } else {
                proof {
                    if !changed {
                        assert forall|m: Seq<char>| start.contains(m) && #[trigger] g[k as int].1.contains(m) implies start.contains(
                            g[k as int].0,
                        ) by {
                            if !start.contains(g[k as int].0) {
                                assert(texts(graph@[k as int].1@).contains(m) && texts(selected@).contains(m));
                            }
                        }
                    }
                }
            }
            k = k + 1;
        }
        proof {
            if !changed {
                assert forall|j: int, m: Seq<char>|
                    0 <= j < g.len() && #[trigger] texts(selected@).to_set().contains(m) && #[trigger] g[j].1.contains(
                        m,
                    ) implies texts(selected@).to_set().contains(g[j].0) by {
                    assert(start.contains(m));
                }
            }
        }
    }
    selected
}

/// A byte offset of a UTF-8 text that starts a character, or its end.
pub open spec fn char_boundary(bytes: Seq<u8>, i: int) -> bool {
    i == 0 || i == bytes.len() || (0 < i < bytes.len() && !(0x80 <= bytes[i] && bytes[i] < 0xC0))
}

fn is_boundary(bytes: &[u8], i: usize) -> (r: bool)
    requires
        i <= bytes@.len(),
    ensures
        r == char_boundary(bytes@, i as int),
{
    i == 0 || i == bytes.len() || !(0x80 <= bytes[i] && bytes[i] < 0xC0)
}

/// A position in a text: its line and its byte column, both from zero.
#[derive(Clone, Copy, Debug, PartialEq, Eq, Structural)]
pub struct Point {
    pub row: usize,
    pub column: usize,
}

/// The number of line feeds among the first `k` bytes.
pub open spec fn newlines_before(bytes: Seq<u8>, k: int) -> nat
    decreases k,
{
    if k <= 0 || k > bytes.len() {
        0
    } else {
        newlines_before(bytes, k - 1) + if bytes[k - 1] == 10 { 1nat } else { 0nat }
    }
}

/// The offset just after the last line feed among the first `k` bytes, or 0.
pub open spec fn line_start(bytes: Seq<u8>, k: int) -> int
    decreases k,
{
    if k <= 0 || k > bytes.len() {
        0
    } else if bytes[k - 1] == 10 {
        k
    } else {
        line_start(bytes, k - 1)
    }
}

proof fn lemma_line_start_bounds(bytes: Seq<u8>, k: int)
    requires
        0 <= k <= bytes.len(),
    ensures
        0 <= line_start(bytes, k) <= k,
        newlines_before(bytes, k) <= k,
    decreases k,
{
    if k > 0 {
        lemma_line_start_bounds(bytes, k - 1);
    }
}

/// The position of byte `offset` of a text: the line feeds before it, and
/// its distance from the start of its line.
pub fn point_at(bytes: &[u8], offset: usize) -> (p: Point)
    ensures
        ({
            let k = if offset <= bytes@.len() { offset as int } else { bytes@.len() as int };
            p.row == newlines_before(bytes@, k) && p.column == k - line_start(bytes@, k)
        }),
{
    let end = if offset <= bytes.len() { offset } else { bytes.len() };
    let mut row: usize = 0;
    let mut start: usize = 0;
    let mut i: usize = 0;
    while i < end
        invariant
            end <= bytes@.len(),
            i <= end,
            row == newlines_before(bytes@, i as int),
            start == line_start(bytes@, i as int),
        decreases end - i,
    {
        proof {
            lemma_line_start_bounds(bytes@, i as int);
        }
        if bytes[i] == 10 {
            row = row + 1;
            start = i + 1;
        }
        i = i + 1;
    }
    proof {
        lemma_line_start_bounds(bytes@, end as int);
    }
    Point { row, column: end - start }
}

/// The bytes an edit replaced: `old[start..old_end]` became
/// `new[start..new_end]`, with the positions of those offsets.
#[derive(Clone, Copy, Debug, PartialEq, Eq, Structural)]
pub struct TextEdit {
    pub start_byte: usize,
    pub old_end_byte: usize,
    pub new_end_byte: usize,
    pub start_position: Point,
    pub old_end_position: Point,
    pub new_end_position: Point,
}

/// Whether `e` describes `old` becoming `new`: the bytes before its start
/// and after its ends are shared, and its offsets start characters.
pub open spec fn describes_replacement(e: TextEdit, old: Seq<u8>, new: Seq<u8>) -> bool {
    &&& e.start_byte <= e.old_end_byte <= old.len()
    &&& e.start_byte <= e.new_end_byte <= new.len()
    &&& old.subrange(0, e.start_byte as int) == new.subrange(0, e.start_byte as int)
    &&& old.len() - e.old_end_byte == new.len() - e.new_end_byte
    &&& old.subrange(e.old_end_byte as int, old.len() as int) == new.subrange(e.new_end_byte as int, new.len() as int)
    &&& char_boundary(old, e.start_byte as int) && char_boundary(new, e.start_byte as int)
    &&& char_boundary(old, e.old_end_byte as int) && char_boundary(new, e.new_end_byte as int)
}

/// The edit that turns `old` into `new`: the longest shared prefix and then
/// the longest shared suffix after it, each shortened to a character
/// boundary of both texts.
pub fn replacement_edit(old: &str, new: &str) -> (e: TextEdit)
    ensures
        describes_replacement(e, vstd::utf8::encode_utf8(old@), vstd::utf8::encode_utf8(new@)),
        e.start_position == point_spec(vstd::utf8::encode_utf8(old@), e.start_byte as int),
        e.old_end_position == point_spec(vstd::utf8::encode_utf8(old@), e.old_end_byte as int),
        e.new_end_position == point_spec(vstd::utf8::encode_utf8(new@), e.new_end_byte as int),
{
    let a = old.as_bytes();
    let b = new.as_bytes();
    let mut prefix: usize = 0;
    while prefix < a.len() && prefix < b.len() && a[prefix] == b[prefix]
        invariant
            prefix <= a@.len(),
            prefix <= b@.len(),
            a@.subrange(0, prefix as int) == b@.subrange(0, prefix as int),
        decreases a@.len() - prefix,
    {
        assert(a@.subrange(0, prefix + 1) =~= a@.subrange(0, prefix as int).push(a@[prefix as int]));
        assert(b@.subrange(0, prefix + 1) =~= b@.subrange(0, prefix as int).push(b@[prefix as int]));
        prefix = prefix + 1;
    }
    while prefix > 0 && (!is_boundary(a, prefix) || !is_boundary(b, prefix))
        invariant
            prefix <= a@.len(),
            prefix <= b@.len(),
            a@.subrange(0, prefix as int) == b@.subrange(0, prefix as int),
        decreases prefix,
    {
        assert(a@.subrange(0, prefix - 1) =~= a@.subrange(0, prefix as int).subrange(0, prefix - 1));
        assert(b@.subrange(0, prefix - 1) =~= b@.subrange(0, prefix as int).subrange(0, prefix - 1));
        prefix = prefix - 1;
    }
    let shorter = if a.len() < b.len() { a.len() } else { b.len() };
    let maximum_suffix = if shorter > prefix { shorter - prefix } else { 0 };
    let mut suffix: usize = 0;
    while suffix < maximum_suffix && a[a.len() - 1 - suffix] == b[b.len() - 1 - suffix]
        invariant
            suffix <= maximum_suffix,
            maximum_suffix + prefix <= a@.len(),
            maximum_suffix + prefix <= b@.len(),
            a@.subrange(a@.len() - suffix, a@.len() as int) == b@.subrange(b@.len() - suffix, b@.len() as int),
        decreases maximum_suffix - suffix,
    {
        assert(a@.subrange(a@.len() - (suffix + 1), a@.len() as int) =~= seq![a@[a@.len() - 1 - suffix]] + a@.subrange(
            a@.len() - suffix,
            a@.len() as int,
        ));
        assert(b@.subrange(b@.len() - (suffix + 1), b@.len() as int) =~= seq![b@[b@.len() - 1 - suffix]] + b@.subrange(
            b@.len() - suffix,
            b@.len() as int,
        ));
        suffix = suffix + 1;
    }
    while suffix > 0 && (!is_boundary(a, a.len() - suffix) || !is_boundary(b, b.len() - suffix))
        invariant
            suffix <= maximum_suffix,
            maximum_suffix + prefix <= a@.len(),
            maximum_suffix + prefix <= b@.len(),
            a@.subrange(a@.len() - suffix, a@.len() as int) == b@.subrange(b@.len() - suffix, b@.len() as int),
        decreases suffix,
    {
        assert(a@.subrange(a@.len() - (suffix - 1), a@.len() as int) =~= a@.subrange(a@.len() - suffix, a@.len() as int).subrange(
            1,
            suffix as int,
        ));
        assert(b@.subrange(b@.len() - (suffix - 1), b@.len() as int) =~= b@.subrange(b@.len() - suffix, b@.len() as int).subrange(
            1,
            suffix as int,
        ));
        suffix = suffix - 1;
    }
    let old_end = a.len() - suffix;
    let new_end = b.len() - suffix;
    TextEdit {
        start_byte: prefix,
        old_end_byte: old_end,
        new_end_byte: new_end,
        start_position: point_at(a, prefix),
        old_end_position: point_at(a, old_end),
        new_end_position: point_at(b, new_end),
    }
}

/// The position of byte `k` of a text.
pub open spec fn point_spec(bytes: Seq<u8>, k: int) -> Point {
    Point { row: newlines_before(bytes, k) as usize, column: (k - line_start(bytes, k)) as usize }
}

/// Whether some parsed document declares module `m` and imports `d`.
pub open spec fn imports_of(programs: Seq<(String, Vec<String>)>, m: Seq<char>, d: Seq<char>) -> bool {
    exists|k: int| 0 <= k < programs.len() && #[trigger] programs[k].0@ == m && texts(programs[k].1@).contains(d)
}

/// Whether one of the first `p` parsed documents declares module `m` and
/// imports `d`.
pub open spec fn imported_before(programs: Seq<(String, Vec<String>)>, m: Seq<char>, p: int, d: Seq<char>) -> bool {
    exists|j: int| 0 <= j < p && #[trigger] programs[j].0@ == m && texts(programs[j].1@).contains(d)
}

/// Whether some parsed document declares module `m`.
pub open spec fn declares(programs: Seq<(String, Vec<String>)>, m: Seq<char>) -> bool {
    exists|k: int| 0 <= k < programs.len() && #[trigger] programs[k].0@ == m
}

/// Whether `graph` is the module graph of `programs` (each parsed document's
/// module and imports): one entry per declared module, in order, each with
/// the modules its documents import, in order and once each.
pub open spec fn is_module_graph(graph: Seq<(Seq<char>, Seq<Seq<char>>)>, programs: Seq<(String, Vec<String>)>) -> bool {
    &&& strictly_sorted(Seq::new(graph.len(), |i: int| graph[i].0))
    &&& forall|m: Seq<char>| declares(programs, m) <==> exists|i: int| 0 <= i < graph.len() && #[trigger] graph[i].0 == m
    &&& forall|i: int| 0 <= i < graph.len() ==> strictly_sorted(#[trigger] graph[i].1)
    &&& forall|i: int, d: Seq<char>|
        0 <= i < graph.len() ==> (#[trigger] graph[i].1.contains(d) <==> imports_of(programs, graph[i].0, d))
}

/// The dependency graph of the parsed documents: for each module, the
/// modules that the documents declaring it import.
pub fn module_graph(programs: &Vec<(String, Vec<String>)>) -> (r: Vec<(String, Vec<String>)>)
    ensures
        is_module_graph(graph_view(r@), programs@),
{
    let mut modules: Vec<String> = Vec::new();
    let mut k: usize = 0;
    while k < programs.len()
        invariant
            k <= programs@.len(),
            strictly_sorted(texts(modules@)),
            forall|m: Seq<char>| texts(modules@).contains(m) <==> exists|j: int| 0 <= j < k && #[trigger] programs@[j].0@ == m,
        decreases programs@.len() - k,
    {
        let ghost before = texts(modules@);
        proof {
            lemma_set_insert_sorted(before, programs@[k as int].0@);
            assert forall|m: Seq<char>| set_insert(before, programs@[k as int].0@).contains(m) <==> exists|j: int|
                0 <= j < k + 1 && #[trigger] programs@[j].0@ == m by {
                lemma_set_insert_contains(before, programs@[k as int].0@, m);
            }
        }
        text_set_insert(&mut modules, programs[k].0.clone());
        k = k + 1;
    }
    let mut graph: Vec<(String, Vec<String>)> = Vec::new();
    let mut i: usize = 0;
    while i < modules.len()
        invariant
            i <= modules@.len(),
            strictly_sorted(texts(modules@)),
            forall|m: Seq<char>| texts(modules@).contains(m) <==> declares(programs@, m),
            graph@.len() == i,
            forall|g: int| 0 <= g < i ==> #[trigger] graph@[g].0@ == modules@[g]@,
            forall|g: int| 0 <= g < i ==> strictly_sorted(texts(#[trigger] graph@[g].1@)),
            forall|g: int, d: Seq<char>|
                0 <= g < i ==> (#[trigger] texts(graph@[g].1@).contains(d) <==> imports_of(programs@, modules@[g]@, d)),
        decreases modules@.len() - i,
    {
        let module = &modules[i];
        let mut deps: Vec<String> = Vec::new();
        let mut p: usize = 0;
        while p < programs.len()
            invariant
                p <= programs@.len(),
                strictly_sorted(texts(deps@)),
                forall|d: Seq<char>| texts(deps@).contains(d) <==> imported_before(programs@, module@, p as int, d),
            decreases programs@.len() - p,
        {
            if crate::text::str_eq(programs[p].0.as_str(), module.as_str()) {
                let imports = &programs[p].1;
                let mut q: usize = 0;
                while q < imports.len()
                    invariant
                        q <= imports@.len(),
                        programs@[p as int].0@ == module@,
                        *imports == programs@[p as int].1,
                        strictly_sorted(texts(deps@)),
                        forall|d: Seq<char>|
                            texts(deps@).contains(d) <==> imported_before(programs@, module@, p as int, d)
                                || texts(imports@).take(q as int).contains(d),
                    decreases imports@.len() - q,
                {
                    let ghost before = texts(deps@);
                    let ghost x = imports@[q as int]@;
                    proof {
                        lemma_set_insert_sorted(before, x);
                        let t = texts(imports@).take(q as int);
                        let t1 = texts(imports@).take(q + 1);
                        assert(t1 =~= t.push(x));
                        assert forall|d: Seq<char>| #[trigger] set_insert(before, x).contains(d) <==> imported_before(programs@, module@, p as int, d)
                            || t1.contains(d) by {
                            lemma_set_insert_contains(before, x, d);
                            if t.contains(d) {
                                let w = choose|w: int| 0 <= w < t.len() && t[w] == d;
                                assert(t1[w] == d);
                            }
                            if d == x {
                                assert(t1[q as int] == d);
                            }
                            if t1.contains(d) && d != x {
                                let w = choose|w: int| 0 <= w < t1.len() && t1[w] == d;
                                assert(t[w] == d);
                            }
                        }
                    }
                    let item = imports[q].clone();
                    assert(item@ == x);
                    text_set_insert(&mut deps, item);
                    assert(texts(deps@) == set_insert(before, x));
                    assert(forall|d: Seq<char>| #[trigger] texts(deps@).contains(d) <==> imported_before(programs@, module@, p as int, d)
                        || texts(imports@).take(q + 1).contains(d));
                    q = q + 1;
                }
                proof {
                    assert(texts(imports@).take(imports@.len() as int) =~= texts(imports@));
                    assert forall|d: Seq<char>| texts(deps@).contains(d) <==> imported_before(programs@, module@, p + 1, d) by {
                        if texts(imports@).contains(d) {
                            assert(programs@[p as int].0@ == module@ && texts(programs@[p as int].1@).contains(d));
                        }
                        if imported_before(programs@, module@, p + 1, d) && !imported_before(programs@, module@, p as int, d) {
                            let j = choose|j: int| 0 <= j < p + 1 && #[trigger] programs@[j].0@ == module@ && texts(programs@[j].1@).contains(d);
                            assert(j == p);
                        }
                    }
                }
            }
            p = p + 1;
        }
        proof {
            assert forall|d: Seq<char>| imported_before(programs@, module@, programs@.len() as int, d) <==> imports_of(
                programs@,
                module@,
                d,
            ) by {
                if imports_of(programs@, module@, d) {
                    let j = choose|j: int|
                        0 <= j < programs@.len() && #[trigger] programs@[j].0@ == module@ && texts(programs@[j].1@).contains(d);
                }
            }
        }
        let ghost before = graph@;
        graph.push((module.clone(), deps));
        proof {
            assert forall|g: int| 0 <= g < i + 1 implies strictly_sorted(texts(#[trigger] graph@[g].1@)) by {
                if g < i {
                    assert(graph@[g] == before[g]);
                }
            }
            assert forall|g: int, d: Seq<char>|
                0 <= g < i + 1 implies (#[trigger] texts(graph@[g].1@).contains(d) <==> imports_of(
                programs@,
                modules@[g]@,
                d,
            )) by {
                if g < i {
                    assert(graph@[g] == before[g]);
                }
            }
        }
        i = i + 1;
    }
    proof {
        let gv = graph_view(graph@);
        assert(Seq::new(gv.len(), |g: int| gv[g].0) =~= texts(modules@));
        assert forall|m: Seq<char>| declares(programs@, m) <==> exists|g: int| 0 <= g < gv.len() && #[trigger] gv[g].0 == m by {
            if declares(programs@, m) {
                assert(texts(modules@).contains(m));
                let g = choose|g: int| 0 <= g < texts(modules@).len() && texts(modules@)[g] == m;
                assert(gv[g].0 == m);
            }
            if exists|g: int| 0 <= g < gv.len() && #[trigger] gv[g].0 == m {
                let g = choose|g: int| 0 <= g < gv.len() && #[trigger] gv[g].0 == m;
                assert(texts(modules@)[g] == m);
            }
        }
    }
    graph
}

} // verus!
