use cgrc::catalog::{CGRCConf, CGRCConfManager};
use cgrc::parser::ConfErrorKind;

#[test]
fn system_location_is_etc_cgrc() {
    assert_eq!(CGRCConfManager::default_system_path(), "/etc/cgrc");
    assert_eq!(CGRCConf::default_system_path(), "/etc/cgrc");
}

#[test]
fn listing_shows_each_description_or_a_question_mark() {
    let files = vec![
        ("/etc/cgrc/ping".to_string(), "desc=Ping replies\nregexp=ms\ncolours=green\n".to_string()),
        ("/etc/cgrc/bare".to_string(), "regexp=x\n".to_string()),
    ];
    let lines = CGRCConfManager::print_avail_system_confs(&files).unwrap();
    assert_eq!(lines, vec!["\t/etc/cgrc/ping -> Ping replies".to_string(), "\t/etc/cgrc/bare -> ?".to_string()]);
    let user = CGRCConfManager::print_avail_user_confs(&files).unwrap();
    assert_eq!(user, lines);
}

#[test]
fn listing_of_nothing_is_empty() {
    let lines = CGRCConfManager::print_avail_user_confs(&Vec::new()).unwrap();
    assert!(lines.is_empty());
}

#[test]
fn listing_stops_at_a_broken_configuration() {
    let files = vec![
        ("a".to_string(), "desc=fine\n".to_string()),
        ("b".to_string(), "regexp=x\ncount=sometimes\n".to_string()),
        ("c".to_string(), "regexp=(\n".to_string()),
    ];
    match CGRCConfManager::print_avail_system_confs(&files) {
        Err(e) => {
            assert_eq!(e.line_number, 2);
            assert_eq!(e.line, "count=sometimes");
            assert!(matches!(e.kind, ConfErrorKind::InvalidCountMode));
        }
        Ok(_) => panic!("a broken configuration was listed"),
    }
}
