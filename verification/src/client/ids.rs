use vstd::prelude::*;

verus! {

/// Something named by a string id.
pub trait HasId {
    spec fn spec_id(&self) -> Seq<char>;

    fn id_ref(&self) -> (r: &String)
        ensures
            r@ == self.spec_id(),
    ;
}

/// The position of the first item with the given id.
pub open spec fn first_with_id<T: HasId>(items: Seq<T>, id: Seq<char>) -> Option<int>
    decreases items.len(),
{
    if items.len() == 0 {
        None
    } else if items[0].spec_id() == id {
        Some(0)
    } else {
        match first_with_id(items.drop_first(), id) {
            Some(i) => Some(i + 1),
            None => None,
        }
    }
}

/// Some item has the given id.
pub open spec fn has_id<T: HasId>(items: Seq<T>, id: Seq<char>) -> bool {
    exists|i: int| 0 <= i < items.len() && (#[trigger] items[i]).spec_id() == id
}

/// `first_with_id` finds the first item with the id, and finds one exactly when there is one.
pub proof fn lemma_first_with_id<T: HasId>(items: Seq<T>, id: Seq<char>)
    ensures
        first_with_id(items, id) is None <==> !has_id(items, id),
        first_with_id(items, id) matches Some(i) ==> {
            &&& 0 <= i < items.len()
            &&& items[i].spec_id() == id
            &&& forall|j: int| 0 <= j < i ==> (#[trigger] items[j]).spec_id() != id
        },
    decreases items.len(),
{
    if items.len() > 0 {
        let rest = items.drop_first();
        lemma_first_with_id(rest, id);
        assert forall|j: int| 0 <= j < rest.len() implies #[trigger] rest[j] == items[j + 1] by {}
        if has_id(items, id) && items[0].spec_id() != id {
            let i = choose|i: int| 0 <= i < items.len() && (#[trigger] items[i]).spec_id() == id;
            assert(rest[i - 1] == items[i]);
        }
        if has_id(rest, id) {
            let i = choose|i: int| 0 <= i < rest.len() && (#[trigger] rest[i]).spec_id() == id;
            assert(items[i + 1] == rest[i]);
        }
        if let Some(i) = first_with_id(items, id) {
            if i > 0 {
                assert forall|j: int| 0 <= j < i implies (#[trigger] items[j]).spec_id() != id by {
                    if j > 0 {
                        assert(rest[j - 1] == items[j]);
                    }
                }
            }
        }
    }
}

/// No two items have the same id.
pub open spec fn unique_ids<T: HasId>(items: Seq<T>) -> bool {
    forall|i: int, j: int| 0 <= i < j < items.len() ==> (#[trigger] items[i]).spec_id() != (#[trigger] items[j]).spec_id()
}

/// Adding an item only when no item has its id, as `add_window`, `add_server` and
/// `add_program` do, keeps the ids unique.
pub proof fn lemma_add_keeps_ids_unique<T: HasId>(items: Seq<T>, x: T)
    requires
        unique_ids(items),
    ensures
        unique_ids(if has_id(items, x.spec_id()) { items } else { items.push(x) }),
{
    if !has_id(items, x.spec_id()) {
        let s = items.push(x);
        assert forall|i: int, j: int| 0 <= i < j < s.len() implies (#[trigger] s[i]).spec_id() != (#[trigger] s[j]).spec_id() by {
            if j == items.len() {
                assert(s[i] == items[i]);
            } else {
                assert(s[i] == items[i] && s[j] == items[j]);
            }
        }
    }
}

/// Removing by its id an item that was just added gives back the items as they were.
pub proof fn lemma_remove_undoes_add<T: HasId>(items: Seq<T>, x: T)
    requires
        !has_id(items, x.spec_id()),
    ensures
        first_with_id(items.push(x), x.spec_id()) == Some(items.len() as int),
        items.push(x).remove(items.len() as int) == items,
{
    let s = items.push(x);
    lemma_first_with_id(s, x.spec_id());
    lemma_first_with_id(items, x.spec_id());
    assert(has_id(s, x.spec_id())) by {
        assert(s[items.len() as int] == x);
    }
    if let Some(i) = first_with_id(s, x.spec_id()) {
        if i < items.len() {
            assert(s[i] == items[i]);
        }
    }
    assert(s.remove(items.len() as int) =~= items);
}

/// The position of the first item of `items` with the given id.
pub fn position_by_id<T: HasId>(items: &Vec<T>, id: &String) -> (r: Option<usize>)
    ensures
        r matches Some(i) ==> i < items@.len() && first_with_id(items@, id@) == Some(i as int),
        r is None ==> first_with_id(items@, id@) is None,
{
    proof {
        lemma_first_with_id(items@, id@);
    }
    let mut i: usize = 0;
    while i < items.len()
        invariant
            i <= items@.len(),
            forall|j: int| 0 <= j < i ==> (#[trigger] items@[j]).spec_id() != id@,
        decreases items@.len() - i,
    {
        if *items[i].id_ref() == *id {
            proof {
                lemma_first_with_id(items@, id@);
                if let Some(f) = first_with_id(items@, id@) {
                    assert(f >= i);
                    assert(f <= i);
                } else {
                    assert(has_id(items@, id@));
                }
            }
            return Some(i);
        }
        i = i + 1;
    }
    proof {
        lemma_first_with_id(items@, id@);
        if let Some(f) = first_with_id(items@, id@) {
            assert(items@[f].spec_id() == id@);
        }
    }
    None
}

} // verus!
