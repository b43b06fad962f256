use vstd::prelude::*;

use super::ids::{HasId, first_with_id, lemma_first_with_id, position_by_id};
use super::layout::layout::{Layout, LayoutView};
use super::layout::wrap::WrapView;

verus! {

broadcast use vstd::string::group_string_axioms;

impl HasId for String {
    open spec fn spec_id(&self) -> Seq<char> {
        self@
    }

    fn id_ref(&self) -> (r: &String) {
        self
    }
}

/// The views of a sequence of strings.
pub open spec fn string_views(s: Seq<String>) -> Seq<Seq<char>> {
    s.map_values(|x: String| x@)
}

/// A wrap of this name holds a program: it is neither the root nor the status line.
pub open spec fn is_leaf_name(name: Seq<char>) -> bool {
    name != "root"@ && name != "status_line"@
}

/// The names of the program wraps among the first `i` wraps, in node order.
pub open spec fn leaf_names_to(ws: Seq<WrapView>, i: int) -> Seq<Seq<char>>
    decreases i,
{
    if 0 < i <= ws.len() {
        let prev = leaf_names_to(ws, i - 1);
        if is_leaf_name(ws[i - 1].name) {
            prev.push(ws[i - 1].name)
        } else {
            prev
        }
    } else {
        Seq::empty()
    }
}

/// The position of the first of `names` that is `id`.
pub open spec fn first_name_index(names: Seq<Seq<char>>, id: Seq<char>) -> Option<int>
    decreases names.len(),
{
    if names.len() == 0 {
        None
    } else if names[0] == id {
        Some(0)
    } else {
        match first_name_index(names.drop_first(), id) {
            Some(i) => Some(i + 1),
            None => None,
        }
    }
}

pub proof fn lemma_first_name_index(names: Seq<String>, id: Seq<char>)
    ensures
        first_with_id(names, id) == first_name_index(string_views(names), id),
    decreases names.len(),
{
    if names.len() > 0 {
        lemma_first_name_index(names.drop_first(), id);
        assert(string_views(names).drop_first() =~= string_views(names.drop_first()));
    }
}

/// `first_name_index` finds a position of `id`, and no earlier one.
pub proof fn lemma_first_name_index_found(names: Seq<Seq<char>>, id: Seq<char>)
    ensures
        first_name_index(names, id) matches Some(i) ==> 0 <= i < names.len() && names[i] == id
            && forall|j: int| 0 <= j < i ==> names[j] != id,
        first_name_index(names, id) is None ==> !names.contains(id),
    decreases names.len(),
{
    if names.len() > 0 {
        let rest = names.drop_first();
        lemma_first_name_index_found(rest, id);
        if names[0] != id {
            assert forall|j: int| 1 <= j < names.len() implies #[trigger] names[j] == rest[j - 1] by {}
            if first_name_index(names, id) is None {
                assert forall|j: int| 0 <= j < names.len() implies names[j] != id by {
                    if j > 0 {
                        assert(names[j] == rest[j - 1]);
                        assert(!rest.contains(id));
                    }
                }
            }
        }
    }
}

/// Among names that are all different, a name's first position is its position.
proof fn lemma_distinct_index(names: Seq<Seq<char>>, i: int)
    requires
        names.no_duplicates(),
        0 <= i < names.len(),
    ensures
        first_name_index(names, names[i]) == Some(i),
{
    lemma_first_name_index_found(names, names[i]);
    if let Some(j) = first_name_index(names, names[i]) {
        assert(j == i) by {
            if j != i {
                assert(names[j] == names[i]);
            }
        }
    } else {
        assert(names.contains(names[i]));
    }
}

/// Whatever was selected, selecting the next or the previous program selects one of the
/// programs, as long as there is one.
pub proof fn lemma_selection_is_a_program(names: Seq<Seq<char>>, selected: Option<Seq<char>>)
    ensures
        next_selection(names, selected) matches Some(id) ==> names.contains(id),
        names.len() > 0 ==> next_selection(names, selected) is Some,
        names.len() > 0 ==> names.contains(prev_selection(names, selected)),
{
    if let Some(id) = selected {
        lemma_first_name_index_found(names, id);
    }
    if names.len() > 0 {
        let found = match selected {
            Some(id) => first_name_index(names, id),
            None => None,
        };
        match found {
            Some(i) => {
                let k = (i + 1) % (names.len() as int);
                assert(0 <= k < names.len());
                assert(names[k] == names[k]);
                let p = if i > 0 { i - 1 } else { 0 };
                assert(names[p] == names[p]);
            },
            None => {
                assert(names[0] == names[0]);
            },
        }
    }
}

/// Among programs with different names, selecting the next program and then the previous one
/// comes back to where it started, unless it started at the last program (the next one is then
/// the first, and the previous of the first is the first).
pub proof fn lemma_prev_undoes_next(names: Seq<Seq<char>>, i: int)
    requires
        names.no_duplicates(),
        0 <= i < names.len() - 1,
    ensures
        prev_selection(names, next_selection(names, Some(names[i]))) == names[i],
{
    lemma_distinct_index(names, i);
    lemma_distinct_index(names, i + 1);
    vstd::arithmetic::div_mod::lemma_small_mod((i + 1) as nat, names.len());
}

/// Among programs with different names, selecting the previous program and then the next one
/// comes back to where it started, unless it started at the first program (the previous of the
/// first is the first, and the next is the second).
pub proof fn lemma_next_undoes_prev(names: Seq<Seq<char>>, i: int)
    requires
        names.no_duplicates(),
        0 < i < names.len(),
    ensures
        next_selection(names, Some(prev_selection(names, Some(names[i])))) == Some(names[i]),
{
    lemma_distinct_index(names, i);
    lemma_distinct_index(names, i - 1);
    vstd::arithmetic::div_mod::lemma_small_mod(i as nat, names.len());
}

/// An optional string as an optional character sequence.
pub open spec fn opt_view(o: Option<String>) -> Option<Seq<char>> {
    match o {
        Some(s) => Some(s@),
        None => None,
    }
}

/// The program selected after `selected`: the next name after it, going round to the first; the
/// first name when `selected` is none of them; none when there are no names.
pub open spec fn next_selection(names: Seq<Seq<char>>, selected: Option<Seq<char>>) -> Option<Seq<char>> {
    let found = match selected {
        Some(id) => first_name_index(names, id),
        None => None,
    };
    match found {
        Some(i) => Some(names[(i + 1) % (names.len() as int)]),
        None => if names.len() > 0 {
            Some(names[0])
        } else {
            None
        },
    }
}

/// The program selected before `selected`: the name before it, staying on the first; the first
/// name when `selected` is none of them.
pub open spec fn prev_selection(names: Seq<Seq<char>>, selected: Option<Seq<char>>) -> Seq<char> {
    let found = match selected {
        Some(id) => first_name_index(names, id),
        None => None,
    };
    match found {
        Some(i) => names[if i > 0 {
            i - 1
        } else {
            0
        }],
        None => names[0],
    }
}

/// The names of the wraps that hold programs, in node order.
pub fn leaf_names(layout: &Layout) -> (r: Vec<String>)
    ensures
        string_views(r@) == leaf_names_to(layout@.wraps, layout@.wraps.len() as int),
{
    let wraps = layout.wraps();
    let root = "root".to_string();
    let status = "status_line".to_string();
    let mut names: Vec<String> = Vec::new();
    let mut i: usize = 0;
    while i < wraps.len()
        invariant
            super::layout::layout::wrap_views(wraps@) == layout@.wraps,
            root@ == "root"@,
            status@ == "status_line"@,
            i <= wraps@.len(),
            string_views(names@) == leaf_names_to(layout@.wraps, i as int),
        decreases wraps@.len() - i,
    {
        let name = wraps[i].name();
        assert(name@ == layout@.wraps[i as int].name);
        if *name != root && *name != status {
            let ghost before = string_views(names@);
            names.push(name.clone());
            assert(string_views(names@) =~= before.push(name@));
        }
        i = i + 1;
    }
    names
}

/// The program to select after `selected` among `names`.
pub fn select_next(names: &Vec<String>, selected: &Option<String>) -> (r: Option<String>)
    ensures
        opt_view(r) == next_selection(string_views(names@), opt_view(*selected)),
{
    let found = match selected {
        Some(id) => {
            proof {
                lemma_first_with_id(names@, id@);
                lemma_first_name_index(names@, id@);
            }
            position_by_id(names, id)
        },
        None => None,
    };
    match found {
        Some(i) => {
            let n = names.len();
            assert(i < n);
            let j = if i < n - 1 {
                i + 1
            } else {
                0
            };
            assert(j == (i + 1) % (n as int)) by (nonlinear_arith)
                requires
                    i < n,
                    j == if i < n - 1 { i + 1 } else { 0 },
            ;
            Some(names[j].clone())
        },
        None => if names.len() > 0 {
            Some(names[0].clone())
        } else {
            None
        },
    }
}

/// The program to select before `selected` among `names`.
pub fn select_prev(names: &Vec<String>, selected: &Option<String>) -> (r: String)
    requires
        names@.len() > 0,
    ensures
        r@ == prev_selection(string_views(names@), opt_view(*selected)),
{
    let found = match selected {
        Some(id) => {
            proof {
                lemma_first_with_id(names@, id@);
                lemma_first_name_index(names@, id@);
            }
            position_by_id(names, id)
        },
        None => None,
    };
    let mut index: usize = match found {
        Some(i) => i,
        None => 0,
    };
    if index > 0 {
        index = index - 1;
    }
    names[index].clone()
}

/// A wrap once `id` is the selected program: the selected program's wrap gets a border and no
/// margin, the other program wraps a margin and no border; the root and the status line stay.
pub open spec fn bordered(w: WrapView, id: Seq<char>) -> WrapView {
    if !is_leaf_name(w.name) {
        w
    } else if w.name == id {
        WrapView { has_border: true, margin: 0, ..w }
    } else {
        WrapView { has_border: false, margin: 1, ..w }
    }
}

/// Marks the wrap of the selected program with a border, and the other program wraps with a
/// margin.
pub fn mark_selected(layout: &mut Layout, program_id: &String)
    requires
        old(layout).wf(),
    ensures
        final(layout).wf(),
        final(layout)@ == (LayoutView {
            wraps: Seq::new(old(layout)@.wraps.len(), |i: int| bordered(old(layout)@.wraps[i], program_id@)),
            ..old(layout)@
        }),
{
    let root = "root".to_string();
    let status = "status_line".to_string();
    let n = layout.wraps().len();
    let mut i: usize = 0;
    while i < n
        invariant
            layout.wf(),
            root@ == "root"@,
            status@ == "status_line"@,
            n == layout@.wraps.len(),
            i <= n,
            layout@.size == old(layout)@.size,
            layout@.children == old(layout)@.children,
            layout@.wraps.len() == old(layout)@.wraps.len(),
            forall|j: int| 0 <= j < i ==> #[trigger] layout@.wraps[j] == bordered(old(layout)@.wraps[j], program_id@),
            forall|j: int| i <= j < n ==> #[trigger] layout@.wraps[j] == old(layout)@.wraps[j],
        decreases n - i,
    {
        let w = layout.wrap_mut(i);
        let is_leaf = *w.name() != root && *w.name() != status;
        if is_leaf {
            if *w.name() == *program_id {
                w.set_has_border(true);
                w.set_margin(0);
            } else {
                w.set_has_border(false);
                w.set_margin(1);
            }
        }
        i = i + 1;
    }
    assert(layout@.wraps =~= Seq::new(old(layout)@.wraps.len(), |i: int| bordered(old(layout)@.wraps[i], program_id@)));
}

} // verus!
