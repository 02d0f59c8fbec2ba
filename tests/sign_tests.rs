use evacuation::records::{read_cli_args, AddressRenga, CliCommand};
use evacuation::sign::{bim_element_sign_t_rust, is_transit, is_zone, sign_from_name, str_equals, BimElementSign, UnknownSign};

#[test]
fn sign_names_are_read() {
    assert_eq!(sign_from_name("Room"), Ok(BimElementSign::Room));
    assert_eq!(sign_from_name("Staircase"), Ok(BimElementSign::Staircase));
    assert_eq!(sign_from_name("DoorWay"), Ok(BimElementSign::DoorWay));
    assert_eq!(sign_from_name("DoorWayOut"), Ok(BimElementSign::DoorWayOut));
}

#[test]
fn both_entrance_spellings_map_to_doorway_in() {
    assert_eq!(sign_from_name("DoorWayInt"), Ok(BimElementSign::DoorWayIn));
    assert_eq!(sign_from_name("DoorWayIn"), Ok(BimElementSign::DoorWayIn));
}

#[test]
fn unknown_sign_is_refused() {
    assert_eq!(sign_from_name("Window"), Err(UnknownSign));
    assert_eq!(sign_from_name(""), Err(UnknownSign));
    assert_eq!(sign_from_name("room"), Err(UnknownSign));
}

#[test]
fn kinds_split_into_zones_and_transits() {
    assert!(is_zone(BimElementSign::Room) && is_zone(BimElementSign::Staircase));
    assert!(!is_zone(BimElementSign::Outside) && !is_zone(BimElementSign::DoorWay));
    assert!(is_transit(BimElementSign::DoorWayIn) && is_transit(BimElementSign::DoorWayOut));
    assert!(!is_transit(BimElementSign::Room) && !is_transit(BimElementSign::Undefined));
}

#[test]
fn strings_compare_by_characters() {
    assert!(str_equals("abc", "abc"));
    assert!(!str_equals("abc", "abd"));
    assert!(!str_equals("ab", "abc"));
}

#[test]
fn c_kinds_round_trip() {
    let all = [
        BimElementSign::Room,
        BimElementSign::Staircase,
        BimElementSign::DoorWay,
        BimElementSign::DoorWayIn,
        BimElementSign::DoorWayOut,
        BimElementSign::Outside,
        BimElementSign::Undefined,
    ];
    for s in all {
        assert_eq!(bim_element_sign_t_rust::from_sign(s).to_sign(), s);
    }
    assert_eq!(bim_element_sign_t_rust::DOOR_WAY_INT.to_sign(), BimElementSign::DoorWayIn);
}

#[test]
fn cli_arguments_are_read() {
    let args = vec!["evac".to_string(), "scenario.json".to_string()];
    match read_cli_args(&args) {
        CliCommand::Run(p) => assert_eq!(p.scenario_file, "scenario.json"),
        _ => panic!("expected a run"),
    }
    assert!(matches!(read_cli_args(&vec!["evac".to_string()]), CliCommand::Missing));
    assert!(matches!(read_cli_args(&vec!["evac".to_string(), "-h".to_string()]), CliCommand::Help));
    assert!(matches!(read_cli_args(&vec!["evac".to_string(), "--help".to_string()]), CliCommand::Help));
}

#[test]
fn legacy_address_converts() {
    let a = AddressRenga { city: "Izhevsk".to_string(), street_address: "Universitetskaya 1".to_string(), add_info: "B1".to_string() }
        .into_address();
    assert_eq!(a.city, "Izhevsk");
    assert_eq!(a.street_address, "Universitetskaya 1");
    assert_eq!(a.add_info, "B1");
}
