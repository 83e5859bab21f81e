use hookd::file::{
    ensure_file_exists, get_aux_dir, get_hook_data_dir, get_info_file, get_log_dir, get_log_file,
};
use hookd::ApiError;
use uuid::Uuid;

fn texts(names: &[&str]) -> Vec<String> {
    names.iter().map(|name| name.to_string()).collect()
}

#[test]
fn data_dir_splits_the_hyphenated_id() {
    let id = 0xa1a2a3a4_b1b2_c1c2_d1d2_d3d4d5d6d7d8u128;
    assert_eq!(
        get_hook_data_dir(id),
        texts(&["a1", "a2", "a3", "a4", "b1b2c1c2d1d2d3d4d5d6d7d8"])
    );
}

#[test]
fn data_dir_of_zero_id() {
    assert_eq!(
        get_hook_data_dir(0),
        texts(&["00", "00", "00", "00", "000000000000000000000000"])
    );
}

#[test]
fn data_dir_of_greatest_id() {
    assert_eq!(
        get_hook_data_dir(u128::MAX),
        texts(&["ff", "ff", "ff", "ff", "ffffffffffffffffffffffff"])
    );
}

#[test]
fn data_dir_ends_with_the_remaining_digits() {
    let id = 0x01234567_89ab_cdef_0123_456789abcdefu128;
    assert_eq!(
        get_hook_data_dir(id),
        texts(&["01", "23", "45", "67", "89abcdef0123456789abcdef"])
    );
}

#[test]
fn data_dir_agrees_with_the_hyphenated_form() {
    let ids = [
        0x0123456789abcdef_fedcba9876543210u128,
        0x67e55044_10b1_426f_9247_bb680e5fe0c8u128,
        1,
        1 << 127,
    ];
    for id in ids {
        let text = Uuid::from_u128(id).hyphenated().to_string();
        let data_dir = get_hook_data_dir(id);
        assert_eq!(data_dir.len(), 5);
        let joined = format!(
            "{}{}{}{}-{}-{}-{}-{}",
            data_dir[0],
            data_dir[1],
            data_dir[2],
            data_dir[3],
            &data_dir[4][0..4],
            &data_dir[4][4..8],
            &data_dir[4][8..12],
            &data_dir[4][12..24]
        );
        assert_eq!(joined, text);
        for name in &data_dir[0..4] {
            assert_eq!(name.len(), 2);
        }
        assert_eq!(data_dir[4].len(), 24);
        assert!(data_dir.iter().all(|name| name.chars().all(|digit| digit.is_ascii_hexdigit())));
    }
}

#[test]
fn data_dir_is_the_same_on_every_call() {
    let id = 0x67e55044_10b1_426f_9247_bb680e5fe0c8u128;
    assert_eq!(get_hook_data_dir(id), get_hook_data_dir(id));
}

#[test]
fn different_ids_have_different_data_dirs() {
    let id = 0x67e55044_10b1_426f_9247_bb680e5fe0c8u128;
    assert_ne!(get_hook_data_dir(id), get_hook_data_dir(id + 1));
    assert_ne!(get_hook_data_dir(id), get_hook_data_dir(id ^ (1 << 127)));
    assert_ne!(get_hook_data_dir(id), get_hook_data_dir(id ^ (1 << 96)));
}

#[test]
fn files_below_the_data_dir() {
    let data_dir = texts(&["00", "11", "22", "33", "rest"]);
    assert_eq!(get_aux_dir(&data_dir), texts(&["00", "11", "22", "33", "rest", "aux"]));
    assert_eq!(get_log_dir(&data_dir), texts(&["00", "11", "22", "33", "rest", "log"]));
    assert_eq!(get_info_file(&data_dir), texts(&["00", "11", "22", "33", "rest", "info.json"]));
}

#[test]
fn files_below_an_empty_path() {
    let nowhere: Vec<String> = Vec::new();
    assert_eq!(get_aux_dir(&nowhere), texts(&["aux"]));
    assert_eq!(get_log_dir(&nowhere), texts(&["log"]));
    assert_eq!(get_info_file(&nowhere), texts(&["info.json"]));
}

#[test]
fn log_files_are_named_by_their_stream() {
    let log_dir = texts(&["00", "11", "22", "33", "rest", "log"]);
    assert_eq!(
        get_log_file(&log_dir, "stdout"),
        texts(&["00", "11", "22", "33", "rest", "log", "stdout.txt"])
    );
    assert_eq!(
        get_log_file(&log_dir, "stderr"),
        texts(&["00", "11", "22", "33", "rest", "log", "stderr.txt"])
    );
}

#[test]
fn an_existing_file_is_found() {
    assert_eq!(ensure_file_exists(true, "gone"), Ok(()));
}

#[test]
fn a_missing_file_is_not_found() {
    assert_eq!(ensure_file_exists(false, "gone"), Err(ApiError::NotFound("gone")));
}

#[test]
fn ids_that_differ_in_the_remaining_digits_have_different_data_dirs() {
    let id = 0x67e55044_10b1_426f_9247_bb680e5fe0c8u128;
    for bit in [0, 47, 48, 63, 64, 79, 80, 95] {
        let other = get_hook_data_dir(id ^ (1 << bit));
        assert_eq!(other[0..4], get_hook_data_dir(id)[0..4]);
        assert_ne!(other[4], get_hook_data_dir(id)[4]);
    }
}
