//! The task list of the application, kept in a persistent vector: filtering
//! by what the view shows, adding a task, and marking one done.

use vstd::prelude::*;
use crate::components::root::ViewType;
use crate::components::task::Task;
use im_rc::vector::Vector;
use std::rc::Rc;

verus! {

/// `im_rc::vector::Vector`, the persistent vector of im-rc. Nothing is known
/// of its inside; what it holds goes by the name `task_list`.
#[verifier::external_type_specification]
#[verifier::external_body]
#[verifier::reject_recursive_types(A)]
pub struct ExVector<A>(Vector<A>);

/// The tasks that a vector holds, in order.
pub uninterp spec fn task_list(tasks: Vector<Rc<Task>>) -> Seq<Rc<Task>>;

/// `Vector::new` of im-rc makes an empty vector.
#[verifier::external_body]
fn empty_tasks() -> (tasks: Vector<Rc<Task>>)
    ensures
        task_list(tasks) == Seq::<Rc<Task>>::empty(),
{
    Vector::new()
}

/// `Vector::len` of im-rc is the number of items.
#[verifier::external_body]
fn count_tasks(tasks: &Vector<Rc<Task>>) -> (n: usize)
    ensures
        n == task_list(*tasks).len(),
{
    tasks.len()
}

/// `Vector::get` of im-rc hands out the item at `index`, and nothing for an
/// index that is out of bounds.
#[verifier::external_body]
fn task_at(tasks: &Vector<Rc<Task>>, index: usize) -> (task: Option<&Rc<Task>>)
    ensures
        match task {
            Some(found) => index < task_list(*tasks).len() && *found
                == task_list(*tasks)[index as int],
            None => index >= task_list(*tasks).len(),
        },
{
    tasks.get(index)
}

/// `Clone::clone` on a vector of im-rc makes a vector of the same items.
#[verifier::external_body]
fn share_tasks(tasks: &Vector<Rc<Task>>) -> (copy: Vector<Rc<Task>>)
    ensures
        task_list(copy) == task_list(*tasks),
{
    tasks.clone()
}

/// `Vector::slice` of im-rc takes the items from `start` up to `end` out of
/// the vector and hands them out as a vector; the others stay in order. It
/// panics on a range that ends beyond the vector.
#[verifier::external_body]
fn cut_tasks(tasks: &mut Vector<Rc<Task>>, start: usize, end: usize) -> (cut: Vector<Rc<Task>>)
    requires
        start <= end <= task_list(*old(tasks)).len(),
    ensures
        task_list(cut) == task_list(*old(tasks)).subrange(start as int, end as int),
        task_list(*final(tasks)) == task_list(*old(tasks)).subrange(0, start as int) + task_list(
            *old(tasks),
        ).subrange(end as int, task_list(*old(tasks)).len() as int),
{
    tasks.slice(start..end)
}

/// `Vector::append` of im-rc puts the items of `other` behind those of the
/// vector. It panics where the length would overflow.
#[verifier::external_body]
fn join_tasks(tasks: &mut Vector<Rc<Task>>, other: Vector<Rc<Task>>)
    requires
        task_list(*old(tasks)).len() + task_list(other).len() <= usize::MAX,
    ensures
        task_list(*final(tasks)) == task_list(*old(tasks)) + task_list(other),
{
    tasks.append(other)
}

/// `Vector::push_back` of im-rc puts `task` behind the items of the vector.
/// It panics where the length would overflow.
#[verifier::external_body]
fn push_task(tasks: &mut Vector<Rc<Task>>, task: Rc<Task>)
    requires
        task_list(*old(tasks)).len() < usize::MAX,
    ensures
        task_list(*final(tasks)) == task_list(*old(tasks)).push(task),
{
    tasks.push_back(task)
}

/// `Vector::update` of im-rc makes a vector with `task` in place of the item
/// at `index`. It panics on an index that is out of bounds.
#[verifier::external_body]
fn replace_task(tasks: &Vector<Rc<Task>>, index: usize, task: Rc<Task>) -> (changed: Vector<
    Rc<Task>,
>)
    requires
        index < task_list(*tasks).len(),
    ensures
        task_list(changed) == task_list(*tasks).update(index as int, task),
{
    tasks.update(index, task)
}

/// Those of the first `n` of `items` whose flag in `keep` is set, in order.
pub open spec fn kept(items: Seq<Rc<Task>>, keep: Seq<bool>, n: nat) -> Seq<Rc<Task>>
    decreases n,
{
    if n == 0 || n > items.len() || n > keep.len() {
        Seq::empty()
    } else if keep[n - 1] {
        kept(items, keep, (n - 1) as nat).push(items[n - 1])
    } else {
        kept(items, keep, (n - 1) as nat)
    }
}

/// Those of the first `n` of `items` whose flag in `keep` is not set.
pub open spec fn dropped(items: Seq<Rc<Task>>, keep: Seq<bool>, n: nat) -> Seq<Rc<Task>>
    decreases n,
{
    if n == 0 || n > items.len() || n > keep.len() {
        Seq::empty()
    } else if keep[n - 1] {
        dropped(items, keep, (n - 1) as nat)
    } else {
        dropped(items, keep, (n - 1) as nat).push(items[n - 1])
    }
}

/// The kept and the dropped among the first `n` items are `n` items.
pub proof fn lemma_kept_and_dropped(items: Seq<Rc<Task>>, keep: Seq<bool>, n: nat)
    requires
        n <= items.len(),
        n <= keep.len(),
    ensures
        kept(items, keep, n).len() + dropped(items, keep, n).len() == n,
    decreases n,
{
    if n > 0 {
        lemma_kept_and_dropped(items, keep, (n - 1) as nat);
    }
}

/// Only the flags of the first `n` items count.
pub proof fn lemma_kept_ignores_later_flags(
    items: Seq<Rc<Task>>,
    keep: Seq<bool>,
    longer: Seq<bool>,
    n: nat,
)
    requires
        n <= items.len(),
        n <= keep.len(),
        n <= longer.len(),
        forall|i: int| 0 <= i < n ==> keep[i] == longer[i],
    ensures
        kept(items, keep, n) == kept(items, longer, n),
        dropped(items, keep, n) == dropped(items, longer, n),
    decreases n,
{
    if n > 0 {
        lemma_kept_ignores_later_flags(items, keep, longer, (n - 1) as nat);
    }
}

/// The tasks of `vector` for which `predicate` holds, in order. Runs of
/// tasks that pass are cut out of a copy of the vector as a whole and
/// joined to the result, so that the result shares them with the vector.
pub fn filter_vector<P: Fn(&Rc<Task>) -> bool>(vector: Vector<Rc<Task>>, predicate: P) -> (r:
    Vector<Rc<Task>>)
    requires
        forall|task: &Rc<Task>| call_requires(predicate, (task,)),
    ensures
        exists|keep: Seq<bool>|
            {
                &&& #[trigger] keep.len() == task_list(vector).len()
                &&& forall|i: int|
                    0 <= i < keep.len() ==> call_ensures(
                        predicate,
                        (&task_list(vector)[i],),
                        #[trigger] keep[i],
                    )
                &&& task_list(r) == kept(task_list(vector), keep, keep.len())
            },
{
    let ghost items = task_list(vector);
    let n = count_tasks(&vector);
    let mut cur = empty_tasks();
    let mut cur_anchor: usize = 0;
    let mut cur_move: usize = 0;
    let mut vector_clone = share_tasks(&vector);
    let ghost mut keep: Seq<bool> = Seq::empty();
    let ghost mut run: Seq<Rc<Task>> = Seq::empty();
    let mut i: usize = 0;
    proof {
        assert(items =~= Seq::<Rc<Task>>::empty() + run + items.subrange(0, n as int));
        assert(task_list(cur) + run =~= Seq::<Rc<Task>>::empty());
    }
    while i < n
        invariant
            items == task_list(vector),
            n == items.len(),
            i <= n,
            keep.len() == i,
            forall|j: int|
                0 <= j < i ==> call_ensures(predicate, (&items[j],), #[trigger] keep[j]),
            forall|task: &Rc<Task>| call_requires(predicate, (task,)),
            cur_anchor == dropped(items, keep, i as nat).len(),
            cur_move == cur_anchor + run.len(),
            task_list(cur) + run == kept(items, keep, i as nat),
            task_list(vector_clone) == dropped(items, keep, i as nat) + run + items.subrange(
                i as int,
                n as int,
            ),
        decreases n - i,
    {
        let ghost flags = keep;
        let ghost out = dropped(items, flags, i as nat);
        let ghost rest = items.subrange(i + 1, n as int);
        let passes = match task_at(&vector, i) {
            Some(task) => predicate(task),
            None => false,
        };
        proof {
            keep = keep.push(passes);
            lemma_kept_ignores_later_flags(items, flags, keep, i as nat);
            lemma_kept_and_dropped(items, flags, i as nat);
            assert(items.subrange(i as int, n as int) =~= seq![items[i as int]] + rest);
        }
        if passes {
            cur_move += 1;
            proof {
                assert(out + run + (seq![items[i as int]] + rest) =~= out + run.push(
                    items[i as int],
                ) + rest);
                assert(task_list(cur) + run.push(items[i as int]) =~= (task_list(cur) + run).push(
                    items[i as int],
                ));
                run = run.push(items[i as int]);
            }
        } else {
            if cur_move != cur_anchor {
                let ghost whole = task_list(vector_clone);
                let taken = cut_tasks(&mut vector_clone, cur_anchor, cur_move);
                proof {
                    assert(task_list(taken) =~= run);
                    assert(task_list(vector_clone) =~= out + (seq![items[i as int]] + rest));
                }
                join_tasks(&mut cur, taken);
                cur_move = cur_anchor;
            } else {
                proof {
                    assert(run =~= Seq::<Rc<Task>>::empty());
                    assert(task_list(vector_clone) =~= out + (seq![items[i as int]] + rest));
                    assert(task_list(cur) + run =~= task_list(cur));
                }
            }
            cur_move += 1;
            cur_anchor += 1;
            proof {
                run = Seq::empty();
                assert(out + (seq![items[i as int]] + rest) =~= out.push(items[i as int]) + run
                    + rest);
                assert(task_list(cur) + run =~= task_list(cur));
            }
        }
        i += 1;
    }
    proof {
        lemma_kept_and_dropped(items, keep, n as nat);
        assert(items.subrange(n as int, n as int) =~= Seq::<Rc<Task>>::empty());
    }
    if cur_move != cur_anchor {
        let taken = cut_tasks(&mut vector_clone, cur_anchor, cur_move);
        proof {
            assert(task_list(taken) =~= run);
        }
        join_tasks(&mut cur, taken);
    } else {
        proof {
            assert(run =~= Seq::<Rc<Task>>::empty());
            assert(task_list(cur) + run =~= task_list(cur));
        }
    }
    cur
}

/// Whether the view `view_type` shows `task`.
pub open spec fn shown(view_type: ViewType, task: Task) -> bool {
    match view_type {
        ViewType::All => true,
        ViewType::Incomplete => !task.completed,
        ViewType::Completed => task.completed,
    }
}

/// Those of the first `n` of `items` that the view `view_type` shows.
pub open spec fn displayed(items: Seq<Rc<Task>>, view_type: ViewType, n: nat) -> Seq<Rc<Task>>
    decreases n,
{
    if n == 0 || n > items.len() {
        Seq::empty()
    } else if shown(view_type, *items[n - 1]) {
        displayed(items, view_type, (n - 1) as nat).push(items[n - 1])
    } else {
        displayed(items, view_type, (n - 1) as nat)
    }
}

/// Flags that say of every item whether the view shows it pick what the
/// view displays.
pub proof fn lemma_kept_by_view(
    items: Seq<Rc<Task>>,
    keep: Seq<bool>,
    view_type: ViewType,
    n: nat,
)
    requires
        n <= items.len(),
        n <= keep.len(),
        forall|i: int| 0 <= i < n ==> keep[i] == shown(view_type, *items[i]),
    ensures
        kept(items, keep, n) == displayed(items, view_type, n),
    decreases n,
{
    if n > 0 {
        lemma_kept_by_view(items, keep, view_type, (n - 1) as nat);
    }
}

/// With every task on display the list is displayed as it is.
pub proof fn lemma_all_displayed(items: Seq<Rc<Task>>, n: nat)
    requires
        n <= items.len(),
    ensures
        displayed(items, ViewType::All, n) == items.take(n as int),
    decreases n,
{
    if n > 0 {
        lemma_all_displayed(items, (n - 1) as nat);
        assert(items.take(n as int) =~= items.take(n - 1).push(items[n - 1]));
    } else {
        assert(items.take(0) =~= Seq::<Rc<Task>>::empty());
    }
}

/// The tasks that the view `view_type` shows, in order.
pub fn tasks_for_display(tasks: Vector<Rc<Task>>, view_type: ViewType) -> (r: Vector<Rc<Task>>)
    ensures
        task_list(r) == displayed(task_list(tasks), view_type, task_list(tasks).len()),
{
    let ghost items = task_list(tasks);
    match view_type {
        ViewType::All => {
            proof {
                lemma_all_displayed(items, items.len());
                assert(items.take(items.len() as int) =~= items);
            }
            tasks
        },
        ViewType::Incomplete => {
            let open = |task: &Rc<Task>| -> (b: bool)
                ensures
                    b == !task.completed,
                { !task.completed };
            let r = filter_vector(tasks, open);
            proof {
                let keep = choose|keep: Seq<bool>|
                    {
                        &&& #[trigger] keep.len() == items.len()
                        &&& forall|i: int|
                            0 <= i < keep.len() ==> call_ensures(
                                open,
                                (&items[i],),
                                #[trigger] keep[i],
                            )
                        &&& task_list(r) == kept(items, keep, keep.len())
                    };
                lemma_kept_by_view(items, keep, view_type, items.len());
            }
            r
        },
        ViewType::Completed => {
            let done = |task: &Rc<Task>| -> (b: bool)
                ensures
                    b == task.completed,
                { task.completed };
            let r = filter_vector(tasks, done);
            proof {
                let keep = choose|keep: Seq<bool>|
                    {
                        &&& #[trigger] keep.len() == items.len()
                        &&& forall|i: int|
                            0 <= i < keep.len() ==> call_ensures(
                                done,
                                (&items[i],),
                                #[trigger] keep[i],
                            )
                        &&& task_list(r) == kept(items, keep, keep.len())
                    };
                lemma_kept_by_view(items, keep, view_type, items.len());
            }
            r
        },
    }
}

/// The list with a new task `name`, numbered `id` and not done, at its
/// end; nothing where the list cannot grow.
pub fn add_task(tasks: &Vector<Rc<Task>>, id: usize, name: String) -> (r: Option<Vector<Rc<Task>>>)
    ensures
        match r {
            Some(grown) => task_list(*tasks).len() < usize::MAX && task_list(grown) == task_list(
                *tasks,
            ).push(Rc::new(Task { id, completed: false, name })),
            None => task_list(*tasks).len() >= usize::MAX,
        },
{
    if count_tasks(tasks) == usize::MAX {
        return None;
    }
    let mut grown = share_tasks(tasks);
    push_task(&mut grown, Rc::new(Task { id, completed: false, name }));
    Some(grown)
}

/// The list with the task at `index` done or not as `completed` says, and
/// otherwise as it was; nothing where there is no such task.
pub fn update_task(tasks: &Vector<Rc<Task>>, index: usize, completed: bool) -> (r: Option<
    Vector<Rc<Task>>,
>)
    ensures
        match r {
            Some(changed) => index < task_list(*tasks).len() && task_list(changed) == task_list(
                *tasks,
            ).update(
                index as int,
                Rc::new(
                    Task {
                        id: task_list(*tasks)[index as int].id,
                        completed,
                        name: task_list(*tasks)[index as int].name,
                    },
                ),
            ),
            None => index >= task_list(*tasks).len(),
        },
{
    match task_at(tasks, index) {
        None => None,
        Some(old_task) => {
            let new_task = Task { name: old_task.name.clone(), id: old_task.id, completed };
            Some(replace_task(tasks, index, Rc::new(new_task)))
        },
    }
}

/// An empty task list.
pub fn no_tasks() -> (r: Vector<Rc<Task>>)
    ensures
        task_list(r) == Seq::<Rc<Task>>::empty(),
{
    empty_tasks()
}

/// The number of tasks in the list.
pub fn number_of_tasks(tasks: &Vector<Rc<Task>>) -> (n: usize)
    ensures
        n == task_list(*tasks).len(),
{
    count_tasks(tasks)
}

/// The task at `index` of the list, if there is one.
pub fn get_task(tasks: &Vector<Rc<Task>>, index: usize) -> (task: Option<&Rc<Task>>)
    ensures
        match task {
            Some(found) => index < task_list(*tasks).len() && *found
                == task_list(*tasks)[index as int],
            None => index >= task_list(*tasks).len(),
        },
{
    task_at(tasks, index)
}

} // verus!
