//! Sandboxes.
use aegis_host::sandbox::{
    platform_sandbox, HcsSandbox, RestrictedSandbox, Sandbox, StubSandbox, Verdict,
};

#[test]
fn stub_never_reports_clean() {
    let sandbox = RestrictedSandbox::new();
    let report =
        sandbox.detonate("nonexistent.exe", 1).expect("stub detonation should not error");
    assert_ne!(
        report.verdict,
        Verdict::Clean,
        "an unimplemented sandbox must never report a sample as clean"
    );
    assert_eq!(report.flagged_behaviors.len(), 1);
    assert!(report.flagged_behaviors[0].contains("sample was NOT executed"));
    assert!(report.network_attempts.is_empty());
    assert_eq!(report.exit_code, None);
}

#[test]
fn no_platform_reports_clean() {
    for windows in [false, true] {
        let report = platform_sandbox(windows).detonate("x.exe", 30).unwrap();
        assert_eq!(report.verdict, Verdict::Suspicious);
    }
    let report = StubSandbox::new().detonate("x.exe", 30).unwrap();
    assert_eq!(
        report.flagged_behaviors,
        vec!["STUB: HCS not available on Linux dev machine \u{2014} treat as suspicious".to_string()]
    );
}

#[test]
fn verdicts_have_words() {
    assert_eq!(Verdict::Clean.text(), "CLEAN");
    assert_eq!(Verdict::Suspicious.text(), "SUSPICIOUS");
    assert_eq!(Verdict::Malicious.text(), "MALICIOUS");
}

#[test]
fn a_container_is_described_without_a_network() {
    let sandbox = HcsSandbox::new("C:\\layers\\base \"x\"");
    let text = sandbox.config_json("id\n1", "D:\\scratch\u{1}.vhdx");
    let value: serde_json::Value = serde_json::from_str(&text).expect("JSON");
    assert_eq!(value.to_string(), text);
    assert_eq!(value["Networking"], serde_json::Value::Object(serde_json::Map::new()));
    assert_eq!(value["Storage"]["Layers"][0]["Id"], "id\n1");
    assert_eq!(value["Storage"]["Layers"][0]["Path"], "C:\\layers\\base \"x\"");
    assert_eq!(value["Storage"]["ScratchVhd"]["Path"], "D:\\scratch\u{1}.vhdx");
    assert_eq!(value["Storage"]["ScratchVhd"]["CreateInstead"], true);
    assert_eq!(value["Storage"]["ScratchVhd"]["SizeInGB"], 2);
    assert_eq!(value["SchemaVersion"]["Major"], 2);
    assert_eq!(value["SchemaVersion"]["Minor"], 1);
    assert_eq!(value["Owner"], "aegis-host");
    assert_eq!(value["GuestOs"]["HostName"], "aegis-sandbox");
    assert_eq!(value["Processor"]["Count"], 1);
    assert_eq!(value["Memory"]["SizeInMB"], 512);
}

#[test]
fn every_layer_gets_a_fresh_name() {
    let sandbox = HcsSandbox::new("base");
    let mut ids = Vec::new();
    for _ in 0..2 {
        let value: serde_json::Value =
            serde_json::from_str(&sandbox.build_config_json("scratch")).expect("JSON");
        let id = value["Storage"]["Layers"][0]["Id"].as_str().expect("an id").to_string();
        assert_eq!(id.len(), 36);
        assert_eq!(&id[14..15], "4");
        ids.push(id);
    }
    assert_ne!(ids[0], ids[1]);
}

#[test]
fn the_parts_of_a_container_are_put_together() {
    assert_eq!(
        HcsSandbox::new("2").config_json("1", "3"),
        "{\"GuestOs\":{\"HostName\":\"aegis-sandbox\"},\"Memory\":{\"SizeInMB\":512},\
         \"Networking\":{},\"Owner\":\"aegis-host\",\"Processor\":{\"Count\":1},\
         \"SchemaVersion\":{\"Major\":2,\"Minor\":1},\"Storage\":{\
         \"Layers\":[{\"Id\":\"1\",\"Path\":\"2\"}],\
         \"ScratchVhd\":{\"CreateInstead\":true,\"Path\":\"3\",\"SizeInGB\":2}}}"
    );
    assert_eq!(HcsSandbox::scratch_path("C:\\T", "id"), "C:\\T\\aegis_scratch_id.vhdx");
}

#[test]
fn a_container_never_clears_a_file() {
    let failed = |words: &str| Err(words.to_string());
    let report = HcsSandbox::conclude(&Ok(()), &Ok(())).unwrap();
    assert_eq!(report.verdict, Verdict::Suspicious);
    assert_eq!(
        report.flagged_behaviors,
        vec!["Phase 4 stub: behavioral telemetry (ETW) not yet wired".to_string()]
    );
    assert_eq!(
        HcsSandbox::conclude(&failed("no service"), &Ok(())).unwrap_err(),
        "HcsCreateComputeSystem failed: no service"
    );
    assert_eq!(
        HcsSandbox::conclude(&Ok(()), &failed("no image")).unwrap_err(),
        "HcsStartComputeSystem failed: no image"
    );
}
