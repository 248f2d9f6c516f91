//! Thread ids and the names made of them.
use cache_manager::naming::{process_dir_prefix, thread_dir_name};
use cache_manager::threads::{current_thread_cache_group_id, ThreadGroupIds};

#[test]
fn ids_are_stable_and_distinct() {
    let mut ids = ThreadGroupIds::new();
    let (mut first, mut second) = (None, None);
    assert_eq!(current_thread_cache_group_id(&mut first, &mut ids), 1);
    assert_eq!(current_thread_cache_group_id(&mut second, &mut ids), 2);
    assert_eq!(current_thread_cache_group_id(&mut first, &mut ids), 1);
    assert_eq!(current_thread_cache_group_id(&mut second, &mut ids), 2);
    assert_eq!((first, second), (Some(1), Some(2)));
    let mut third = None;
    assert_eq!(current_thread_cache_group_id(&mut third, &mut ids), 3);
}

#[test]
fn names_hold_the_decimal_number() {
    for n in [0, 1, 9, 10, 99, 100, 1234567890, u64::MAX] {
        assert_eq!(thread_dir_name(n), format!("thread-{n}").into_bytes());
    }
    for pid in [0, 7, 10, 4242, u32::MAX] {
        assert_eq!(process_dir_prefix(pid), format!("pid-{pid}-").into_bytes());
    }
}
