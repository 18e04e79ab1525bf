use persql::util::do_meta_command;

#[test]
fn do_meta_nothing() {
    assert_eq!(do_meta_command("nothing"), false);
}

#[test]
fn do_meta_exit() {
    assert_eq!(do_meta_command(".exit"), true);
    assert_eq!(do_meta_command(".exit "), false);
}
