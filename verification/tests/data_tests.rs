use darken::data::Data;

#[test]
fn fresh_data_has_no_votes() {
    let d = Data::new();
    assert_eq!(d.get_votes(&String::from("anyone")), 0);
}

#[test]
fn votes_accumulate_per_name() {
    let mut d = Data::new();
    assert_eq!(d.add_vote(&String::from("ada")), 1);
    assert_eq!(d.add_vote(&String::from("ada")), 2);
    assert_eq!(d.add_vote(&String::from("grace")), 1);
    assert_eq!(d.get_votes(&String::from("ada")), 2);
    assert_eq!(d.get_votes(&String::from("grace")), 1);
    assert_eq!(d.get_votes(&String::from("alan")), 0);
}
