use ex3::component_ids;
use ex3::component_ids::ComponentIds;

#[test]
fn get_component_enum_from_u8() {
    let eps = component_ids::ComponentIds::from(1);
    assert_eq!(eps, component_ids::ComponentIds::EPS);

    let adcs = component_ids::ComponentIds::from(2);
    assert_eq!(adcs, component_ids::ComponentIds::ADCS);

    let dfgm = component_ids::ComponentIds::from(3);
    assert_eq!(dfgm, component_ids::ComponentIds::DFGM);

    let iris = component_ids::ComponentIds::from(4);
    assert_eq!(iris, component_ids::ComponentIds::IRIS);

    let gps = component_ids::ComponentIds::from(5);
    assert_eq!(gps, component_ids::ComponentIds::GPS);

    let gs = component_ids::ComponentIds::from(7);
    assert_eq!(gs, component_ids::ComponentIds::GS);

    let coms = component_ids::ComponentIds::from(8);
    assert_eq!(coms, component_ids::ComponentIds::COMS);

    let test = component_ids::ComponentIds::from(99);
    assert_eq!(test, component_ids::ComponentIds::TEST);

    let obc = component_ids::ComponentIds::from(0);
    assert_eq!(obc, component_ids::ComponentIds::OBC);
}

#[test]
fn get_component_enum_from_str() {
    let eps = component_ids::ComponentIds::from_str("EPS").unwrap();
    assert_eq!(eps, component_ids::ComponentIds::EPS);

    let adcs = component_ids::ComponentIds::from_str("ADCS").unwrap();
    assert_eq!(adcs, component_ids::ComponentIds::ADCS);

    let dfgm = component_ids::ComponentIds::from_str("DFGM").unwrap();
    assert_eq!(dfgm, component_ids::ComponentIds::DFGM);

    let iris = component_ids::ComponentIds::from_str("IRIS").unwrap();
    assert_eq!(iris, component_ids::ComponentIds::IRIS);

    let gps = component_ids::ComponentIds::from_str("GPS").unwrap();
    assert_eq!(gps, component_ids::ComponentIds::GPS);

    let gs = component_ids::ComponentIds::from_str("GS").unwrap();
    assert_eq!(gs, component_ids::ComponentIds::GS);

    let coms = component_ids::ComponentIds::from_str("COMS").unwrap();
    assert_eq!(coms, component_ids::ComponentIds::COMS);

    let test = component_ids::ComponentIds::from_str("TEST").unwrap();
    assert_eq!(test, component_ids::ComponentIds::TEST);

    let obc = component_ids::ComponentIds::from_str("OBC").unwrap();
    assert_eq!(obc, component_ids::ComponentIds::OBC);
}

#[test]
fn get_component_str_from_enum() {
    let eps = component_ids::ComponentIds::EPS;
    assert_eq!(eps.to_string(), "EPS");

    let adcs = component_ids::ComponentIds::ADCS;
    assert_eq!(adcs.to_string(), "ADCS");

    let dfgm = component_ids::ComponentIds::DFGM;
    assert_eq!(dfgm.to_string(), "DFGM");

    let iris = component_ids::ComponentIds::IRIS;
    assert_eq!(iris.to_string(), "IRIS");

    let gps = component_ids::ComponentIds::GPS;
    assert_eq!(gps.to_string(), "GPS");

    let gs = component_ids::ComponentIds::GS;
    assert_eq!(gs.to_string(), "GS");

    let coms = component_ids::ComponentIds::COMS;
    assert_eq!(coms.to_string(), "COMS");

    let test = component_ids::ComponentIds::TEST;
    assert_eq!(test.to_string(), "TEST");

    let obc = component_ids::ComponentIds::OBC;
    assert_eq!(obc.to_string(), "OBC");
}

#[test]
fn unknown_component_number_is_test() {
    assert_eq!(ComponentIds::from(6), ComponentIds::TEST);
    assert_eq!(ComponentIds::from(255), ComponentIds::TEST);
}

#[test]
fn unknown_component_name_is_refused() {
    assert_eq!(ComponentIds::from_str("eps"), Err(()));
    assert_eq!(ComponentIds::from_str(""), Err(()));
    assert_eq!(ComponentIds::from_str("OBC "), Err(()));
}

#[test]
fn component_number_round_trip() {
    let all = [
        ComponentIds::OBC,
        ComponentIds::EPS,
        ComponentIds::ADCS,
        ComponentIds::DFGM,
        ComponentIds::IRIS,
        ComponentIds::GPS,
        ComponentIds::GS,
        ComponentIds::COMS,
        ComponentIds::TEST,
    ];
    for c in all {
        assert_eq!(ComponentIds::from(c.id()), c);
        assert_eq!(ComponentIds::from_str(&c.to_string()), Ok(c));
    }
    assert_eq!(ComponentIds::COMS.id(), component_ids::COMS);
    assert_eq!(ComponentIds::TEST.id(), 99);
}

#[test]
fn component_from_str_trait() {
    let c: ComponentIds = "IRIS".parse().unwrap();
    assert_eq!(c, ComponentIds::IRIS);
}
