use laya_candle::layout::assemble_sequence;
use laya_candle::tokens::SpecialIds;

const CLS: u32 = 1;
const SEP: u32 = 2;
const MASK: u32 = 3;

fn special() -> SpecialIds {
    SpecialIds { cls: CLS, sep: SEP, mask: MASK, pad: 0, mask_token: "[MASK]".to_string() }
}

fn ids(from: u32, n: u32) -> Vec<u32> {
    (from..from + n).collect()
}

#[test]
fn parts_are_laid_out_in_order() {
    let (out, markers) = assemble_sequence(
        &special(),
        vec![10, 11],
        &vec![vec![20], vec![], vec![21, 22]],
        &[30, 31],
        64,
        100,
        false,
    );
    assert_eq!(
        out,
        vec![CLS, 10, 11, SEP, MASK, 20, MASK, MASK, 21, 22, SEP, 30, 31, SEP]
    );
    assert_eq!(markers, vec![4, 6, 7]);
}

#[test]
fn no_options_leave_two_separators() {
    let (out, markers) = assemble_sequence(&special(), vec![10], &vec![], &[30], 64, 100, false);
    assert_eq!(out, vec![CLS, 10, SEP, SEP, 30, SEP]);
    assert!(markers.is_empty());
}

#[test]
fn state_is_cut_at_its_end() {
    let (out, _) =
        assemble_sequence(&special(), vec![10], &vec![vec![20]], &ids(30, 10), 10, 100, false);
    assert_eq!(out, vec![CLS, 10, SEP, MASK, 20, SEP, 30, 31, 32, SEP]);
}

#[test]
fn listed_state_is_cut_at_its_beginning() {
    let (out, _) =
        assemble_sequence(&special(), vec![10], &vec![vec![20]], &ids(30, 10), 10, 100, true);
    assert_eq!(out, vec![CLS, 10, SEP, MASK, 20, SEP, 37, 38, 39, SEP]);
}

#[test]
fn state_that_just_fits_is_whole() {
    for left in [false, true] {
        let (out, _) =
            assemble_sequence(&special(), vec![10], &vec![vec![20]], &ids(30, 3), 10, 100, left);
        assert_eq!(out, vec![CLS, 10, SEP, MASK, 20, SEP, 30, 31, 32, SEP]);
    }
}

#[test]
fn state_without_room_is_dropped() {
    for left in [false, true] {
        let (out, markers) =
            assemble_sequence(&special(), vec![10], &vec![vec![20]], &ids(30, 3), 7, 100, left);
        assert_eq!(out, vec![CLS, 10, SEP, MASK, 20, SEP, SEP]);
        assert_eq!(markers, vec![3]);
    }
}

#[test]
fn sequence_is_never_longer_than_the_model_takes() {
    for max_len in 0..12usize {
        let (out, markers) = assemble_sequence(
            &special(),
            vec![10],
            &vec![vec![20], vec![21]],
            &ids(30, 3),
            max_len,
            100,
            false,
        );
        assert!(out.len() <= max_len);
        assert!(markers.iter().all(|m| *m < max_len && out[*m] == MASK));
    }
}

#[test]
fn marks_beyond_the_length_are_dropped() {
    let (out, markers) = assemble_sequence(
        &special(),
        vec![10],
        &vec![vec![20], vec![21]],
        &[],
        5,
        100,
        false,
    );
    assert_eq!(out, vec![CLS, 10, SEP, MASK, 20]);
    assert_eq!(markers, vec![3]);
}

#[test]
fn head_is_cut_to_what_the_options_leave() {
    // The two rows take 10 of 40, so 30 are left for the head.
    let (out, markers) = assemble_sequence(
        &special(),
        ids(100, 50),
        &vec![ids(20, 4), ids(25, 4)],
        &[],
        512,
        40,
        false,
    );
    assert_eq!(markers, vec![32, 37]);
    assert_eq!(out[1..31], ids(100, 30)[..]);
    assert_eq!(out[31], SEP);
}

#[test]
fn long_options_are_cut_to_their_share() {
    // 40 ids in two rows leave less than 16 of 48, so each row keeps (48 - 16) / 2.
    let (out, markers) = assemble_sequence(
        &special(),
        ids(100, 50),
        &vec![ids(200, 19), ids(300, 19)],
        &[],
        512,
        48,
        false,
    );
    assert_eq!(markers, vec![18, 34]);
    assert_eq!(out.len(), 1 + 16 + 1 + 16 + 16 + 2);
    assert_eq!(out[19..34], ids(200, 15)[..]);
    assert_eq!(out[35..50], ids(300, 15)[..]);
}

#[test]
fn options_keep_at_least_four_ids() {
    // Ten rows of 4 take all of 40: the head falls back to 8 ids.
    let options: Vec<Vec<u32>> = (0..10).map(|i| ids(200 + 10 * i, 9)).collect();
    let (out, markers) =
        assemble_sequence(&special(), ids(100, 50), &options, &[], 512, 40, false);
    assert_eq!(markers[0], 10);
    assert_eq!(markers[1], 14);
    assert_eq!(markers.len(), 10);
    assert_eq!(out[1..9], ids(100, 8)[..]);
    assert_eq!(out[10..14], [MASK, 200, 201, 202]);
}

#[test]
fn overfull_options_leave_the_head_as_it_is() {
    // Eleven rows of 4 take more than 40, and the head is not cut at all.
    let options: Vec<Vec<u32>> = (0..11).map(|i| ids(200 + 10 * i, 9)).collect();
    let (out, markers) =
        assemble_sequence(&special(), ids(100, 50), &options, &[], 512, 40, false);
    assert_eq!(markers[0], 52);
    assert_eq!(out[1..51], ids(100, 50)[..]);
}

#[test]
fn small_budgets_are_no_obstacle() {
    let (out, markers) = assemble_sequence(
        &special(),
        ids(100, 20),
        &vec![ids(200, 9)],
        &[],
        512,
        7,
        false,
    );
    // The row keeps 4, which leaves 3 of 7; the head keeps 8.
    assert_eq!(markers, vec![10]);
    assert_eq!(out[1..9], ids(100, 8)[..]);
    assert_eq!(out[10..14], [MASK, 200, 201, 202]);
    assert_eq!(out.len(), 16);
}

#[test]
fn roomy_budgets_mark_every_option() {
    for n in 0..30u32 {
        let head_max_len = (4 * n + 8) as usize;
        let options: Vec<Vec<u32>> = (0..n).map(|_| ids(200, 48)).collect();
        let (out, markers) = assemble_sequence(
            &special(),
            ids(100, 90),
            &options,
            &ids(500, 9),
            head_max_len + 2,
            head_max_len,
            true,
        );
        assert_eq!(markers.len(), n as usize);
        assert!(markers.iter().all(|m| out[*m] == MASK));
        assert_eq!(out[0], CLS);
    }
}

#[test]
fn uncut_sequence_ends_with_a_separator() {
    for len in 0..5u32 {
        let (out, _) = assemble_sequence(
            &special(),
            vec![10],
            &vec![vec![20]],
            &ids(30, len),
            12,
            100,
            false,
        );
        assert!(out.len() < 12);
        assert_eq!(out.last(), Some(&SEP));
    }
}
