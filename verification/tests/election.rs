use ospfd::election::{run_election, Candidate};

fn candidate(id: u32, priority: u8, declared_dr: u32, declared_bdr: u32) -> Candidate {
    Candidate { id, router_id: id, priority, declared_dr, declared_bdr }
}

#[test]
fn a_router_alone_is_designated_router() {
    assert_eq!(run_election(&Vec::new(), 1, 1, 1, 0, 0), (1, 0));
}

#[test]
fn priority_decides_and_then_the_id() {
    let others = vec![candidate(2, 1, 0, 0), candidate(3, 1, 0, 0)];
    assert_eq!(run_election(&others, 1, 1, 9, 0, 0), (1, 3));
    assert_eq!(run_election(&others, 1, 1, 1, 0, 0), (3, 2));
}

#[test]
fn office_holders_stay_in_office() {
    let others = vec![candidate(2, 1, 2, 1), candidate(9, 200, 2, 1)];
    assert_eq!(run_election(&others, 1, 1, 1, 2, 1), (2, 1));
}

#[test]
fn the_backup_follows_the_designated_router() {
    let others = vec![candidate(3, 1, 2, 1)];
    assert_eq!(run_election(&others, 1, 1, 1, 2, 1), (1, 3));
}

#[test]
fn nobody_holds_both_offices() {
    for mine in [0, 1, 2, 3] {
        for theirs in [0, 1, 2, 3] {
            let others = vec![candidate(2, 5, theirs, mine), candidate(3, 5, mine, theirs)];
            let (dr, bdr) = run_election(&others, 1, 1, 5, mine, theirs);
            assert!(dr != bdr || dr == 0);
        }
    }
}
