use fakeword::utils::{checked_total, random_choice, weighted_index, weighted_random_choice};

#[test]
fn a_draw_selects_the_first_running_sum_above_it() {
    let weights = vec![2usize, 0, 3, 1];
    assert_eq!(weighted_index(&weights, 0), 0);
    assert_eq!(weighted_index(&weights, 1), 0);
    assert_eq!(weighted_index(&weights, 2), 2);
    assert_eq!(weighted_index(&weights, 4), 2);
    assert_eq!(weighted_index(&weights, 5), 3);
}

#[test]
fn an_alternative_of_weight_zero_is_never_selected() {
    let weights = vec![0usize, 5, 0];
    for draw in 0..5 {
        assert_eq!(weighted_index(&weights, draw), 1);
    }
}

#[test]
fn totals_that_do_not_fit_are_told_apart() {
    assert_eq!(checked_total(&vec![]), Some(0));
    assert_eq!(checked_total(&vec![1, 2, 3]), Some(6));
    assert_eq!(checked_total(&vec![usize::MAX]), Some(usize::MAX));
    assert_eq!(checked_total(&vec![usize::MAX, 1]), None);
    assert_eq!(checked_total(&vec![usize::MAX - 1, 1, 1]), None);
}

#[test]
fn weighted_choice_prefers_the_heavy_alternative() {
    let mut rng = rand::thread_rng();
    let alternatives = vec![(1usize, 'A'), (99usize, 'B')];
    let mut heavy = 0;
    for _ in 0..1000 {
        if weighted_random_choice(&alternatives, &mut rng) == 'B' {
            heavy += 1;
        }
    }
    assert!(heavy >= 950);
}

#[test]
fn weighted_choice_never_takes_weight_zero() {
    let mut rng = rand::thread_rng();
    let alternatives = vec![(0usize, 'A'), (3usize, 'B'), (0usize, 'C')];
    for _ in 0..200 {
        assert_eq!(weighted_random_choice(&alternatives, &mut rng), 'B');
    }
}

#[test]
fn weighted_choice_reaches_every_alternative() {
    let mut rng = rand::thread_rng();
    let alternatives = vec![(1usize, 0usize), (1usize, 1usize), (1usize, 2usize)];
    let mut seen = [false; 3];
    for _ in 0..500 {
        seen[weighted_random_choice(&alternatives, &mut rng)] = true;
    }
    assert_eq!(seen, [true, true, true]);
}

#[test]
fn plain_choice_takes_one_of_the_alternatives() {
    let mut rng = rand::thread_rng();
    let alternatives = vec![(0usize, 'A'), (0usize, 'B')];
    let mut seen_a = false;
    let mut seen_b = false;
    for _ in 0..200 {
        match random_choice(&alternatives, &mut rng) {
            'A' => seen_a = true,
            'B' => seen_b = true,
            other => panic!("{} is no alternative", other),
        }
    }
    assert!(seen_a && seen_b);
}
