use im_rc::vector::Vector;
use reactive_ui::components::app::{
    add_task, filter_vector, get_task, no_tasks, number_of_tasks, tasks_for_display, update_task,
};
use reactive_ui::components::{Task, ViewType};
use std::rc::Rc;

fn task(id: usize, completed: bool) -> Rc<Task> {
    Rc::new(Task { id, completed, name: format!("task {}", id) })
}

fn tasks(flags: &[bool]) -> Vector<Rc<Task>> {
    let mut list = no_tasks();
    for (id, completed) in flags.iter().enumerate() {
        list.push_back(task(id, *completed));
    }
    list
}

fn ids(list: &Vector<Rc<Task>>) -> Vec<usize> {
    list.iter().map(|task| task.id).collect()
}

#[test]
fn filter_keeps_what_passes_in_order() {
    let list = tasks(&[true, true, false, true, false, false, true]);
    assert_eq!(ids(&filter_vector(list.clone(), |t: &Rc<Task>| t.completed)), vec![0, 1, 3, 6]);
    assert_eq!(ids(&filter_vector(list.clone(), |t: &Rc<Task>| !t.completed)), vec![2, 4, 5]);
    assert_eq!(ids(&filter_vector(list.clone(), |_: &Rc<Task>| true)), vec![0, 1, 2, 3, 4, 5, 6]);
    assert_eq!(ids(&filter_vector(list.clone(), |_: &Rc<Task>| false)), Vec::<usize>::new());
    assert_eq!(ids(&filter_vector(list.clone(), |t: &Rc<Task>| t.id % 2 == 0)), vec![0, 2, 4, 6]);
    assert_eq!(ids(&list), vec![0, 1, 2, 3, 4, 5, 6]);
}

#[test]
fn filter_of_nothing_is_nothing() {
    assert_eq!(number_of_tasks(&filter_vector(no_tasks(), |_: &Rc<Task>| true)), 0);
    assert_eq!(ids(&filter_vector(tasks(&[false]), |t: &Rc<Task>| t.completed)), Vec::<usize>::new());
    assert_eq!(ids(&filter_vector(tasks(&[true]), |t: &Rc<Task>| t.completed)), vec![0]);
}

#[test]
fn filter_works_on_a_list_that_spans_many_chunks() {
    let flags: Vec<bool> = (0..1000).map(|i| i % 3 != 0).collect();
    let list = tasks(&flags);
    let expected: Vec<usize> = (0..1000).filter(|i| i % 3 != 0).collect();
    assert_eq!(ids(&filter_vector(list, |t: &Rc<Task>| t.completed)), expected);
}

#[test]
fn filter_shares_the_tasks_with_the_list() {
    let list = tasks(&[true, false, true]);
    let filtered = filter_vector(list.clone(), |t: &Rc<Task>| t.completed);
    assert!(Rc::ptr_eq(get_task(&filtered, 0).unwrap(), get_task(&list, 0).unwrap()));
    assert!(Rc::ptr_eq(get_task(&filtered, 1).unwrap(), get_task(&list, 2).unwrap()));
    assert!(get_task(&filtered, 2).is_none());
}

#[test]
fn the_view_decides_what_is_displayed() {
    let list = tasks(&[true, false, false, true]);
    assert_eq!(ids(&tasks_for_display(list.clone(), ViewType::All)), vec![0, 1, 2, 3]);
    assert_eq!(ids(&tasks_for_display(list.clone(), ViewType::Incomplete)), vec![1, 2]);
    assert_eq!(ids(&tasks_for_display(list.clone(), ViewType::Completed)), vec![0, 3]);
}

#[test]
fn a_new_task_goes_to_the_end_and_is_not_done() {
    let list = tasks(&[true]);
    let grown = add_task(&list, 7, String::from("write")).unwrap();
    assert_eq!(ids(&grown), vec![0, 7]);
    let added = get_task(&grown, 1).unwrap();
    assert_eq!(added.name, "write");
    assert!(!added.completed);
    assert_eq!(number_of_tasks(&list), 1);
    assert_eq!(number_of_tasks(&grown), 2);
}

#[test]
fn marking_a_task_changes_that_task_only() {
    let list = tasks(&[false, false, false]);
    let changed = update_task(&list, 1, true).unwrap();
    let flags: Vec<bool> = changed.iter().map(|task| task.completed).collect();
    assert_eq!(flags, vec![false, true, false]);
    assert_eq!(ids(&changed), vec![0, 1, 2]);
    assert_eq!(get_task(&changed, 1).unwrap().name, "task 1");
    assert!(Rc::ptr_eq(get_task(&changed, 0).unwrap(), get_task(&list, 0).unwrap()));
    assert!(!get_task(&list, 1).unwrap().completed);
    let back = update_task(&changed, 1, false).unwrap();
    assert!(!get_task(&back, 1).unwrap().completed);
}

#[test]
fn marking_a_task_that_is_not_there_gives_nothing() {
    assert!(update_task(&tasks(&[false]), 1, true).is_none());
    assert!(update_task(&no_tasks(), 0, true).is_none());
}
