use qiniu_uploader::plan::{
    compute_next_part_size, compute_part_size, part_count, PART_MAX_SIZE, PART_MIN_SIZE,
};

const MB: usize = 1024 * 1024;
const GB: usize = 1024 * MB;

fn cut(file_size: usize, part_size: usize) -> Vec<usize> {
    let mut sizes = Vec::new();
    let mut left = file_size;
    while left > 0 {
        let size = compute_next_part_size(part_size, left);
        sizes.push(size);
        left -= size;
    }
    assert_eq!(part_count(file_size, part_size), sizes.len());
    assert_eq!(sizes.iter().sum::<usize>(), file_size);
    sizes
}

#[test]
fn limits_are_one_megabyte_and_one_gigabyte() {
    assert_eq!(PART_MIN_SIZE, 1_048_576);
    assert_eq!(PART_MAX_SIZE, 1_073_741_824);
}

#[test]
fn part_size_is_clamped() {
    assert_eq!(compute_part_size(100 * MB, Some(50 * MB), Some(10)), 50 * MB);
    assert_eq!(compute_part_size(100 * MB, Some(1), None), MB);
    assert_eq!(compute_part_size(100 * MB, Some(0), Some(0)), MB);
    assert_eq!(compute_part_size(100 * MB, Some(2 * GB), None), GB);
    assert_eq!(compute_part_size(0, None, None), MB);
    assert_eq!(compute_part_size(10 * GB, None, Some(1)), GB);
}

#[test]
fn part_size_goes_before_threads() {
    for threads in [None, Some(0), Some(1), Some(255)] {
        assert_eq!(compute_part_size(100 * MB, Some(7 * MB), threads), 7 * MB);
    }
}

#[test]
fn five_threads_are_the_default() {
    assert_eq!(compute_part_size(100 * MB, None, None), 20 * MB);
    assert_eq!(compute_part_size(100 * MB, None, Some(5)), 20 * MB);
    assert_eq!(compute_part_size(100 * MB, None, Some(10)), 10 * MB);
}

#[test]
fn small_files_are_one_part() {
    assert_eq!(cut(0, MB), Vec::<usize>::new());
    assert_eq!(cut(1, MB), vec![1]);
    assert_eq!(cut(MB, MB), vec![MB]);
    assert_eq!(cut(2 * MB - 1, MB), vec![2 * MB - 1]);
}

#[test]
fn short_tails_join_the_part_before() {
    assert_eq!(cut(2 * MB, MB), vec![MB, MB]);
    assert_eq!(cut(10 * MB + 5, 5 * MB), vec![5 * MB, 5 * MB + 5]);
    assert_eq!(cut(11 * MB, 5 * MB), vec![5 * MB, 5 * MB, MB]);
    assert_eq!(cut(11 * MB - 1, 5 * MB), vec![5 * MB, 6 * MB - 1]);
}

#[test]
fn tails_do_not_join_beyond_one_gigabyte() {
    assert_eq!(cut(GB, GB), vec![GB]);
    assert_eq!(cut(GB + 1, GB), vec![GB, 1]);
    assert_eq!(cut(2 * GB, GB), vec![GB, GB]);
    assert_eq!(cut(GB - 1, GB - 5), vec![GB - 1]);
    assert_eq!(cut(GB, GB - 5), vec![GB]);
    assert_eq!(cut(GB, GB - MB / 2), vec![GB]);
    assert_eq!(cut(GB + 1, GB - 5), vec![GB - 5, 6]);
    assert_eq!(cut(2 * GB - MB, GB - MB), vec![GB - MB, GB - MB, MB]);
    assert_eq!(cut(2 * GB - MB - 1, GB - MB), vec![GB - MB, GB - 1]);
    assert_eq!(cut(2 * GB - 2 * MB + 7, GB - MB), vec![GB - MB, GB - MB + 7]);
}

#[test]
fn parts_stay_in_bounds() {
    for file_size in [3 * MB, 7 * MB + 3, 100 * MB - 1, 3 * GB + 17] {
        for part_size in [MB, MB + 1, 20 * MB, GB - MB] {
            let sizes = cut(file_size, part_size);
            for (i, size) in sizes.iter().enumerate() {
                assert!(MB <= *size && *size <= GB);
                if i + 1 < sizes.len() {
                    assert_eq!(*size, part_size);
                }
            }
        }
    }
}

#[test]
fn every_thread_gets_one_part() {
    for threads in [1u8, 2, 3, 5, 7, 10, 255] {
        let file_size = 600 * MB + 254;
        let part_size = compute_part_size(file_size, None, Some(threads));
        assert_eq!(cut(file_size, part_size).len(), threads as usize);
    }
    let file_size = 2 * GB - 1;
    let part_size = compute_part_size(file_size, None, Some(2));
    assert_eq!(cut(file_size, part_size), vec![GB - 1, GB]);
    let file_size = 3 * GB - 1;
    let part_size = compute_part_size(file_size, None, Some(3));
    assert_eq!(cut(file_size, part_size), vec![GB - 1, GB - 1, GB - 1, 2]);
}
