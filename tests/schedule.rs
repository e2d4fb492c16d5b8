use nbody::schedule::{Action, Run};

fn drain(mut run: Run) -> Vec<Action> {
    let mut out = Vec::new();
    while let Some(a) = run.next() {
        out.push(a);
    }
    out
}

#[test]
fn zero_steps_hand_out_nothing() {
    let mut run = Run::new(5, 0);
    assert_eq!(run.next(), None);
    assert_eq!(run.next(), None);
}

#[test]
fn three_bodies_two_steps() {
    let one_step = vec![
        Action::Interact(0, 1),
        Action::Interact(0, 2),
        Action::Interact(1, 2),
        Action::Advance(0),
        Action::Advance(1),
        Action::Advance(2),
        Action::Observe,
    ];
    let mut expected = one_step.clone();
    expected.extend(one_step);
    assert_eq!(drain(Run::new(3, 2)), expected);
}

#[test]
fn single_body_only_advances() {
    assert_eq!(
        drain(Run::new(1, 2)),
        vec![Action::Advance(0), Action::Observe, Action::Advance(0), Action::Observe]
    );
}

#[test]
fn no_bodies_only_observe() {
    assert_eq!(drain(Run::new(0, 3)), vec![Action::Observe; 3]);
}

#[test]
fn finished_run_stays_finished() {
    let mut run = Run::new(2, 1);
    assert_eq!(drain_some(&mut run), 4);
    assert_eq!(run.next(), None);
}

fn drain_some(run: &mut Run) -> usize {
    let mut count: usize = 0;
    while run.next().is_some() {
        count += 1;
    }
    count
}

#[test]
fn every_step_interacts_each_pair_once_before_advancing() {
    let n: usize = 6;
    let actions = drain(Run::new(n, 3));
    let per_step = n * (n - 1) / 2 + n + 1;
    assert_eq!(actions.len(), 3 * per_step);
    for step in actions.chunks(per_step) {
        let mut seen = vec![vec![0u32; n]; n];
        let mut advanced: usize = 0;
        for a in &step[..per_step - 1] {
            match *a {
                Action::Interact(i, j) => {
                    assert!(i < j && j < n);
                    assert_eq!(advanced, 0);
                    seen[i][j] += 1;
                }
                Action::Advance(k) => {
                    assert_eq!(k, advanced);
                    advanced += 1;
                }
                Action::Observe => panic!("observation before the step ends"),
            }
        }
        assert_eq!(step[per_step - 1], Action::Observe);
        assert_eq!(advanced, n);
        for i in 0..n {
            for j in (i + 1)..n {
                assert_eq!(seen[i][j], 1);
            }
        }
    }
}
