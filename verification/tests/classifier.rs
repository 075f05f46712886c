use unarchive_queue::classifier::is_root_rar_file;

#[test]
fn part_one_is_root() {
    assert!(is_root_rar_file("show.part1.rar"));
    assert!(is_root_rar_file("show.part01.rar"));
    assert!(is_root_rar_file("show.part0001.rar"));
    assert!(is_root_rar_file("part1.rar"));
}

#[test]
fn other_part_numbers_are_not_root() {
    assert!(!is_root_rar_file("show.part2.rar"));
    assert!(!is_root_rar_file("show.part02.rar"));
    assert!(!is_root_rar_file("show.part10.rar"));
    assert!(!is_root_rar_file("show.part0.rar"));
    assert!(!is_root_rar_file("part0.rar"));
    assert!(!is_root_rar_file("show.part11.rar"));
}

#[test]
fn plain_rar_is_root() {
    assert!(is_root_rar_file("show.rar"));
    assert!(is_root_rar_file(".rar"));
    assert!(is_root_rar_file("show.part.rar"));
    // the digits are not immediately preceded by `part`
    assert!(is_root_rar_file("show.partx1.rar"));
}

#[test]
fn non_rar_names_are_not_root() {
    assert!(!is_root_rar_file(""));
    assert!(!is_root_rar_file("rar"));
    assert!(!is_root_rar_file("show.r00"));
    assert!(!is_root_rar_file("show.sfv"));
    assert!(!is_root_rar_file("show.rar.txt"));
    // the match is case-sensitive
    assert!(!is_root_rar_file("SHOW.RAR"));
    assert!(!is_root_rar_file("show.part01.RAR"));
}

#[test]
fn classification_uses_the_file_name() {
    assert!(is_root_rar_file("/downloads/tv/show.part01.rar"));
    assert!(!is_root_rar_file("/downloads/tv/show.part02.rar"));
    assert!(is_root_rar_file("sub/dir/bonus.rar"));
    assert!(!is_root_rar_file("dir.rar/notes.txt"));
}
