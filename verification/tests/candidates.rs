use pooled_staking::{
    CandidateState, EligibleCandidate, PositionChange, Settings, SortedEligibleCandidates,
};

fn content(list: &SortedEligibleCandidates<u64>) -> Vec<(u64, u128)> {
    list.entries().iter().map(|entry| (entry.candidate, entry.stake)).collect()
}

fn change(before: Option<u32>, after: Option<u32>) -> PositionChange {
    PositionChange { before, after }
}

#[test]
fn most_staked_come_first() {
    let mut list = SortedEligibleCandidates::new(10);
    assert_eq!(list.update(1, 50, true), change(None, Some(0)));
    assert_eq!(list.update(2, 70, true), change(None, Some(0)));
    assert_eq!(list.update(3, 60, true), change(None, Some(1)));
    assert_eq!(list.update(4, 10, true), change(None, Some(3)));
    assert_eq!(content(&list), vec![(2, 70), (3, 60), (1, 50), (4, 10)]);
    assert_eq!(list.entries()[0], EligibleCandidate { candidate: 2, stake: 70 });
    assert_eq!(list.position(&1), Some(2));
    assert_eq!(list.position(&5), None);
}

#[test]
fn equal_stakes_are_ranked_by_account() {
    let mut list = SortedEligibleCandidates::new(10);
    list.update(2, 50, true);
    list.update(1, 50, true);
    list.update(3, 50, true);
    assert_eq!(content(&list), vec![(1, 50), (2, 50), (3, 50)]);
}

#[test]
fn an_update_moves_a_candidate() {
    let mut list = SortedEligibleCandidates::new(10);
    list.update(1, 50, true);
    list.update(2, 70, true);
    list.update(3, 60, true);
    assert_eq!(list.update(1, 65, true), change(Some(2), Some(1)));
    assert_eq!(content(&list), vec![(2, 70), (1, 65), (3, 60)]);
    assert_eq!(list.update(2, 70, true), change(Some(0), Some(0)));
    assert_eq!(content(&list), vec![(2, 70), (1, 65), (3, 60)]);
}

#[test]
fn an_ineligible_candidate_leaves() {
    let mut list = SortedEligibleCandidates::new(10);
    list.update(1, 50, true);
    list.update(2, 70, true);
    assert_eq!(list.update(2, 80, false), change(Some(0), None));
    assert_eq!(content(&list), vec![(1, 50)]);
    assert_eq!(list.update(3, 80, false), change(None, None));
    assert_eq!(content(&list), vec![(1, 50)]);
}

#[test]
fn the_least_staked_fall_out_of_a_full_list() {
    let mut list = SortedEligibleCandidates::new(2);
    list.update(1, 50, true);
    list.update(2, 70, true);
    assert_eq!(list.update(3, 40, true), change(None, None));
    assert_eq!(content(&list), vec![(2, 70), (1, 50)]);
    assert_eq!(list.update(4, 60, true), change(None, Some(1)));
    assert_eq!(content(&list), vec![(2, 70), (4, 60)]);
}

#[test]
fn a_dropped_candidate_comes_back_only_by_an_update() {
    let mut list = SortedEligibleCandidates::new(2);
    list.update(1, 50, true);
    list.update(2, 70, true);
    list.update(4, 60, true);
    assert_eq!(list.update(2, 70, false), change(Some(0), None));
    assert_eq!(content(&list), vec![(4, 60)]);
    assert_eq!(list.update(1, 50, true), change(None, Some(1)));
    assert_eq!(content(&list), vec![(4, 60), (1, 50)]);
}

#[test]
fn a_list_without_room_stays_empty() {
    let mut list = SortedEligibleCandidates::new(0);
    assert_eq!(list.update(1, 50, true), change(None, None));
    assert_eq!(content(&list), vec![]);
}

#[test]
fn eligible_candidates_delegate_to_themselves_and_pass_the_filter() {
    let settings = Settings {
        initial_manual_claim_share_value: 1,
        initial_auto_compounding_share_value: 1,
        minimum_self_delegation: 100,
        rewards_collator_commission: 200_000_000,
        eligible_candidates_buffer_size: 2,
    };
    assert!(settings.is_eligible(100, true));
    assert!(settings.is_eligible(101, true));
    assert!(!settings.is_eligible(99, true));
    assert!(!settings.is_eligible(100, false));
}

fn entries(content: &[(u64, u128)]) -> Vec<EligibleCandidate<u64, u128>> {
    content
        .iter()
        .map(|(candidate, stake)| EligibleCandidate { candidate: *candidate, stake: *stake })
        .collect()
}

#[test]
fn only_ranked_entries_that_fit_make_a_list() {
    let ranked = entries(&[(2, 70), (1, 50), (3, 50)]);
    let list = SortedEligibleCandidates::from_entries(ranked.clone(), 3).unwrap();
    assert_eq!(content(&list), vec![(2, 70), (1, 50), (3, 50)]);
    assert!(SortedEligibleCandidates::from_entries(ranked, 2).is_none());
    assert!(SortedEligibleCandidates::from_entries(entries(&[(1, 50), (2, 70)]), 3).is_none());
    assert!(SortedEligibleCandidates::from_entries(entries(&[(3, 50), (1, 50)]), 3).is_none());
    assert!(SortedEligibleCandidates::from_entries(entries(&[(1, 70), (1, 50)]), 3).is_none());
}

fn state(candidate: u64, stake: u128, self_delegation: u128) -> CandidateState<u64> {
    CandidateState { candidate, stake, self_delegation, passes_filter: true }
}

#[test]
fn candidates_are_updated_one_after_the_other() {
    let settings = Settings {
        initial_manual_claim_share_value: 1,
        initial_auto_compounding_share_value: 1,
        minimum_self_delegation: 10,
        rewards_collator_commission: 0,
        eligible_candidates_buffer_size: 2,
    };
    let mut list = SortedEligibleCandidates::new(settings.eligible_candidates_buffer_size);
    let changes = list.update_all(
        &settings,
        vec![
            state(1, 50, 10),
            state(2, 70, 10),
            state(3, 60, 10),
            state(2, 70, 9),
            CandidateState { passes_filter: false, ..state(4, 90, 10) },
            state(1, 50, 11),
        ],
    );
    assert_eq!(
        changes,
        vec![
            change(None, Some(0)),
            change(None, Some(0)),
            change(None, Some(1)),
            change(Some(0), None),
            change(None, None),
            change(None, Some(1)),
        ]
    );
    assert_eq!(content(&list), vec![(3, 60), (1, 50)]);
    assert_eq!(list.update_all(&settings, vec![]), vec![]);
    assert_eq!(content(&list), vec![(3, 60), (1, 50)]);
}
