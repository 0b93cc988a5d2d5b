use bitcask::utils::{datafile_name, fileid_of, hintfile_name, sorted_fileids, timestamp};

fn names(list: &[&str]) -> Vec<String> {
    list.iter().map(|s| s.to_string()).collect()
}

#[test]
fn data_file_name_is_dir_id_suffix() {
    assert_eq!(datafile_name("db", 0), "db/0.bitcask.data");
    assert_eq!(datafile_name("/var/lib/store", 42), "/var/lib/store/42.bitcask.data");
    assert_eq!(datafile_name("d", u64::MAX), "d/18446744073709551615.bitcask.data");
}

#[test]
fn hint_file_name_is_dir_id_suffix() {
    assert_eq!(hintfile_name("db", 7), "db/7.bitcask.hint");
    assert_eq!(hintfile_name("", 10), "/10.bitcask.hint");
}

#[test]
fn file_id_is_read_from_a_data_file_name() {
    assert_eq!(fileid_of("0.bitcask.data"), Some(0));
    assert_eq!(fileid_of("42.bitcask.data"), Some(42));
    assert_eq!(fileid_of("18446744073709551615.bitcask.data"), Some(u64::MAX));
    assert_eq!(fileid_of("7.data"), Some(7));
    assert_eq!(fileid_of("007.x.y.data"), Some(7));
    assert_eq!(fileid_of("+5.bitcask.data"), Some(5));
    assert_eq!(fileid_of("5..data"), Some(5));
}

#[test]
fn other_names_give_no_file_id() {
    assert_eq!(fileid_of("42.bitcask.hint"), None);
    assert_eq!(fileid_of("18446744073709551616.bitcask.data"), None);
    assert_eq!(fileid_of("x.bitcask.data"), None);
    assert_eq!(fileid_of("-1.bitcask.data"), None);
    assert_eq!(fileid_of("1 .bitcask.data"), None);
    assert_eq!(fileid_of(".data"), None);
    assert_eq!(fileid_of("..data"), None);
    assert_eq!(fileid_of(".5.data"), None);
    assert_eq!(fileid_of("data"), None);
    assert_eq!(fileid_of("5.data.bak"), None);
    assert_eq!(fileid_of("5.dat"), None);
    assert_eq!(fileid_of("5.datas"), None);
    assert_eq!(fileid_of("5.Data"), None);
    assert_eq!(fileid_of("5."), None);
    assert_eq!(fileid_of(""), None);
    assert_eq!(fileid_of("+.data"), None);
    assert_eq!(fileid_of("٣.data"), None);
    assert_eq!(fileid_of("5é.data"), None);
}

#[test]
fn written_names_are_read_back() {
    for id in [0u64, 1, 9, 10, 99, 100, 12345, u64::MAX - 1, u64::MAX] {
        let path = datafile_name("dir", id);
        let name = path.strip_prefix("dir/").unwrap();
        assert_eq!(fileid_of(name), Some(id));
        let hint = hintfile_name("dir", id);
        assert_eq!(fileid_of(hint.strip_prefix("dir/").unwrap()), None);
    }
}

#[test]
fn file_ids_come_sorted_and_once() {
    let listing = names(&[
        "10.bitcask.data",
        "2.bitcask.data",
        "2.bitcask.hint",
        "notes.txt",
        "x.data",
        "7.data",
        "2.bitcask.data",
        "+2.bitcask.data",
        ".data",
        "0.bitcask.data",
    ]);
    assert_eq!(sorted_fileids(&listing), vec![0, 2, 7, 10]);
}

#[test]
fn an_empty_listing_has_no_file_ids() {
    assert_eq!(sorted_fileids(&Vec::new()), Vec::<u64>::new());
    assert_eq!(sorted_fileids(&names(&["a", "b.hint"])), Vec::<u64>::new());
}

#[test]
fn the_clock_gives_a_time_of_this_century() {
    let t = timestamp().unwrap();
    assert!(t > 1_600_000_000_000_000_000);
    assert!(t < 4_000_000_000_000_000_000);
    let u = timestamp().unwrap();
    assert!(u >= t - 1_000_000_000);
}
