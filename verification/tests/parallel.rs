use git_barber::parallel::{in_input_order, workers};

#[test]
fn results_come_back_in_the_order_of_the_work() {
    let collected = vec![(3, 'd'), (0, 'a'), (4, 'e'), (2, 'c'), (1, 'b')];
    assert_eq!(in_input_order(collected), vec!['a', 'b', 'c', 'd', 'e']);
    assert_eq!(in_input_order(Vec::<(usize, char)>::new()), vec![]);
    // Numbers with gaps are put in order too.
    assert_eq!(in_input_order(vec![(7, 'b'), (2, 'a'), (9, 'c')]), vec!['a', 'b', 'c']);
}

#[test]
fn there_is_always_a_worker_and_never_more_than_work() {
    assert_eq!(workers(0, 3), 1);
    assert_eq!(workers(8, 3), 3);
    assert_eq!(workers(2, 3), 2);
    assert_eq!(workers(4, 0), 0);
}
