use dvadva::session::step_subtab;

#[test]
fn test_no_forks_stays_on_main() {
    assert_eq!(step_subtab(None, 0, true), None);
    assert_eq!(step_subtab(None, 0, false), None);
}

#[test]
fn without_forks_any_view_leads_to_main() {
    for forward in [true, false] {
        assert_eq!(step_subtab(Some(7), 0, forward), None);
        assert_eq!(step_subtab(Some(usize::MAX), 0, forward), None);
    }
}

#[test]
fn test_forward_wraps_through_main() {
    // main -> fork 0 -> fork 1 -> main
    assert_eq!(step_subtab(None, 2, true), Some(0));
    assert_eq!(step_subtab(Some(0), 2, true), Some(1));
    assert_eq!(step_subtab(Some(1), 2, true), None);
}

#[test]
fn test_backward_is_the_mirror() {
    // main -> fork 1 -> fork 0 -> main
    assert_eq!(step_subtab(None, 2, false), Some(1));
    assert_eq!(step_subtab(Some(1), 2, false), Some(0));
    assert_eq!(step_subtab(Some(0), 2, false), None);
}

#[test]
fn test_single_fork_toggles() {
    assert_eq!(step_subtab(None, 1, true), Some(0));
    assert_eq!(step_subtab(Some(0), 1, true), None);
    assert_eq!(step_subtab(None, 1, false), Some(0));
    assert_eq!(step_subtab(Some(0), 1, false), None);
}

#[test]
fn a_walk_round_the_row_returns() {
    for subagents in 0..6usize {
        for forward in [true, false] {
            let mut view = None;
            for _ in 0..=subagents {
                let next = step_subtab(view, subagents, forward);
                assert_eq!(step_subtab(next, subagents, !forward), view);
                view = next;
            }
            assert_eq!(view, None);
        }
    }
}
