use vstd::prelude::*;

verus! {

/// The first row, in the order of the table, that passes a test.
pub open spec fn first_of<T>(rows: Seq<T>, test: spec_fn(T) -> bool) -> Option<T> {
    if rows.filter(test).len() > 0 {
        Some(rows.filter(test)[0])
    } else {
        None
    }
}

/// Whether some row passes a test.
pub open spec fn any_of<T>(rows: Seq<T>, test: spec_fn(T) -> bool) -> bool {
    exists|i: int| 0 <= i < rows.len() && test(#[trigger] rows[i])
}

/// A row that passes the test, with none before it that does, is the first.
pub proof fn lemma_first_found<T>(rows: Seq<T>, test: spec_fn(T) -> bool, i: int)
    requires
        0 <= i < rows.len(),
        test(rows[i]),
        forall|j: int| 0 <= j < i ==> !test(#[trigger] rows[j]),
    ensures
        first_of(rows, test) == Some(rows[i]),
        any_of(rows, test),
{
    let head = rows.take(i);
    let tail = rows.skip(i + 1);
    assert(rows =~= head.push(rows[i]) + tail);
    assert forall|j: int| 0 <= j < head.len() implies !test(#[trigger] head[j]) by {
        assert(head[j] == rows[j]);
    }
    head.lemma_all_neg_filter_empty(test);
    head.lemma_filter_push(rows[i], test);
    Seq::filter_distributes_over_add(head.push(rows[i]), tail, test);
    assert(head.push(rows[i]).filter(test) =~= seq![rows[i]]);
}

/// Where no row passes the test, there is no first.
pub proof fn lemma_first_none<T>(rows: Seq<T>, test: spec_fn(T) -> bool)
    requires
        forall|j: int| 0 <= j < rows.len() ==> !test(#[trigger] rows[j]),
    ensures
        first_of(rows, test) is None,
        !any_of(rows, test),
        rows.filter(test) == Seq::<T>::empty(),
{
    rows.lemma_all_neg_filter_empty(test);
    assert(rows.filter(test) =~= Seq::<T>::empty());
}

/// There is a first row that passes exactly when some row passes, and the
/// first passes.
pub proof fn lemma_first_of<T>(rows: Seq<T>, test: spec_fn(T) -> bool)
    ensures
        first_of(rows, test) is Some <==> any_of(rows, test),
        first_of(rows, test) matches Some(row) ==> test(row) && rows.contains(row),
{
    if any_of(rows, test) {
        let i = choose|i: int| 0 <= i < rows.len() && test(#[trigger] rows[i]);
        rows.lemma_filter_contains(test, i);
    } else {
        lemma_first_none(rows, test);
    }
    if rows.filter(test).len() > 0 {
        rows.lemma_filter_pred(test, 0);
        let row = rows.filter(test)[0];
        assert(rows.filter(test).contains(row));
        rows.lemma_filter_contains_rev(test, row);
        let i = choose|i: int| 0 <= i < rows.len() && rows[i] == row;
        assert(test(rows[i]));
    }
}

} // verus!
