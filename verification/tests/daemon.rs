use wsrx_desktop::daemon::{
    api_bind_address, default_label, features_from_text, features_to_text, first_crypto_step,
    instances_file_text, label_from_number, next_crypto_step, persisted_instances, restored_row,
    restored_rows, scope_from_row, scope_row, scope_rows, scopes_from_rows, CryptoBackend, CryptoStep, InstanceData, ScopeData,
    ScopeRow, UNKNOWN_LATENCY,
};

fn instance(label: &str, local: &str, latency: i32) -> InstanceData {
    InstanceData {
        label: label.to_string(),
        remote: format!("wss://example.org/{label}"),
        local: local.to_string(),
        latency,
        scope_host: "example.org".to_string(),
    }
}

fn strings(v: &[&str]) -> Vec<String> {
    v.iter().map(|s| s.to_string()).collect()
}

#[test]
fn persisted_instances_forget_latency() {
    let live = vec![instance("a", "127.0.0.1:1000", 35), instance("b", "127.0.0.1:1001", -1)];
    let saved = persisted_instances(&live);
    assert_eq!(saved.len(), 2);
    for (s, l) in saved.iter().zip(live.iter()) {
        assert_eq!(s.latency, UNKNOWN_LATENCY);
        assert_eq!(s.label, l.label);
        assert_eq!(s.remote, l.remote);
        assert_eq!(s.local, l.local);
        assert_eq!(s.scope_host, l.scope_host);
    }
    assert!(persisted_instances(&vec![]).is_empty());
}

#[test]
fn persisting_twice_is_persisting_once() {
    let live = vec![instance("a", "127.0.0.1:1000", 12)];
    let once = persisted_instances(&live);
    let twice = persisted_instances(&once);
    assert_eq!(twice[0].latency, once[0].latency);
    assert_eq!(twice[0].label, once[0].label);
    assert_eq!(twice[0].local, once[0].local);
}

#[test]
fn instances_file_is_written_only_with_text() {
    assert_eq!(
        instances_file_text(Some("instances = []\n".to_string())),
        Some("instances = []\n".to_string())
    );
    assert_eq!(instances_file_text(Some(String::new())), None);
    assert_eq!(instances_file_text(None), None);
}

#[test]
fn restored_rows_keep_only_bound_instances() {
    let stored = vec![
        instance("a", "127.0.0.1:1000", -1),
        instance("b", "127.0.0.1:1001", -1),
        instance("c", "0.0.0.0:0", 40),
    ];
    let bound = vec![Some("127.0.0.1:1000".to_string()), None, Some("0.0.0.0:53122".to_string())];
    let rows = restored_rows(&stored, &bound);
    assert_eq!(rows.len(), 2);
    assert_eq!(rows[0].label, "a");
    assert_eq!(rows[0].local, "127.0.0.1:1000");
    assert_eq!(rows[1].label, "c");
    assert_eq!(rows[1].local, "0.0.0.0:53122");
    assert_eq!(rows[1].latency, UNKNOWN_LATENCY);
    assert_eq!(rows[1].remote, "wss://example.org/c");
    assert!(restored_rows(&vec![], &vec![]).is_empty());
}

#[test]
fn restoring_persisted_instances_shows_them_again() {
    let saved = persisted_instances(&vec![instance("a", "127.0.0.1:1", 3), instance("b", "127.0.0.1:2", 4)]);
    let bound: Vec<Option<String>> = saved.iter().map(|d| Some(d.local.clone())).collect();
    let rows = restored_rows(&saved, &bound);
    assert_eq!(rows.len(), saved.len());
    for (r, s) in rows.iter().zip(saved.iter()) {
        assert_eq!(r.label, s.label);
        assert_eq!(r.remote, s.remote);
        assert_eq!(r.local, s.local);
        assert_eq!(r.latency, s.latency);
        assert_eq!(r.scope_host, s.scope_host);
    }
}

#[test]
fn restored_row_takes_the_bound_address() {
    let r = restored_row(&instance("x", "127.0.0.1:0", 9), "127.0.0.1:4444".to_string());
    assert_eq!(r.local, "127.0.0.1:4444");
    assert_eq!(r.latency, -1);
    assert_eq!(r.label, "x");
}

#[test]
fn features_are_split_at_commas_and_trimmed() {
    assert_eq!(features_from_text("basic, pingfall ,\tx"), strings(&["basic", "pingfall", "x"]));
    assert_eq!(features_from_text(""), strings(&[""]));
    assert_eq!(features_from_text(","), strings(&["", ""]));
    assert_eq!(features_from_text("  a  "), strings(&["a"]));
    assert_eq!(features_from_text("a,,b"), strings(&["a", "", "b"]));
    assert_eq!(features_from_text("\u{3000}x\u{a0}, y\n"), strings(&["x", "y"]));
    assert_eq!(features_from_text("a b, c"), strings(&["a b", "c"]));
}

#[test]
fn features_are_shown_comma_separated() {
    assert_eq!(features_to_text(&strings(&["basic", "pingfall"])), "basic,pingfall");
    assert_eq!(features_to_text(&strings(&["one"])), "one");
    assert_eq!(features_to_text(&vec![]), "");
    assert_eq!(features_to_text(&strings(&["", ""])), ",");
}

#[test]
fn showing_then_reading_features_is_stable() {
    let read = features_from_text(" a , b,,c ");
    assert_eq!(features_from_text(&features_to_text(&read)), read);
}

fn scope(features: &[&str]) -> ScopeData {
    ScopeData {
        host: "ctf.example.org".to_string(),
        name: "Example CTF".to_string(),
        state: "allowed".to_string(),
        features: strings(features),
        settings: "{\"a\":1}".to_string(),
    }
}

#[test]
fn scope_survives_being_shown_and_saved() {
    let s = scope(&["basic", "pingfall"]);
    let row = scope_row(&s);
    assert_eq!(row.features, "basic,pingfall");
    assert_eq!(row.settings, "{\"a\":1}");
    let back = scope_from_row(&row);
    assert_eq!(back.host, s.host);
    assert_eq!(back.name, s.name);
    assert_eq!(back.state, s.state);
    assert_eq!(back.features, s.features);
    assert_eq!(back.settings, s.settings);
}

#[test]
fn scope_without_features_comes_back_with_one_empty_feature() {
    let back = scope_from_row(&scope_row(&scope(&[])));
    assert_eq!(back.features, strings(&[""]));
}

#[test]
fn scope_from_row_parses_the_feature_text() {
    let row = ScopeRow {
        host: "h".to_string(),
        name: "n".to_string(),
        state: "pending".to_string(),
        features: "x , y".to_string(),
        settings: "{}".to_string(),
    };
    let s = scope_from_row(&row);
    assert_eq!(s.features, strings(&["x", "y"]));
    assert_eq!(s.state, "pending");
}

#[test]
fn api_server_prefers_port_3307() {
    assert_eq!(api_bind_address(false), "127.0.0.1:3307");
    assert_eq!(api_bind_address(true), "127.0.0.1:0");
}

#[test]
fn crypto_backend_falls_back_to_ring_then_exits() {
    assert_eq!(first_crypto_step(), CryptoStep::Install(CryptoBackend::AwsLc));
    assert_eq!(next_crypto_step(CryptoBackend::AwsLc, true), CryptoStep::Use(CryptoBackend::AwsLc));
    assert_eq!(
        next_crypto_step(CryptoBackend::AwsLc, false),
        CryptoStep::Install(CryptoBackend::Ring)
    );
    assert_eq!(next_crypto_step(CryptoBackend::Ring, true), CryptoStep::Use(CryptoBackend::Ring));
    assert_eq!(next_crypto_step(CryptoBackend::Ring, false), CryptoStep::Exit);
}

#[test]
fn labels_are_six_hex_digits_at_least() {
    assert_eq!(label_from_number(0), "inst-000000");
    assert_eq!(label_from_number(0xabc), "inst-000abc");
    assert_eq!(label_from_number(0x123456), "inst-123456");
    assert_eq!(label_from_number(0x1234567), "inst-1234567");
    assert_eq!(label_from_number(u32::MAX), "inst-ffffffff");
    assert_eq!(label_from_number(255), format!("inst-{:06x}", 255u32));
}

#[test]
fn default_labels_have_the_label_shape() {
    for _ in 0..32 {
        let l = default_label();
        assert!(l.starts_with("inst-"));
        let digits = &l[5..];
        assert!(digits.len() >= 6 && digits.len() <= 8);
        assert!(digits.chars().all(|c| c.is_ascii_hexdigit() && !c.is_ascii_uppercase()));
        let n = u32::from_str_radix(digits, 16).unwrap();
        assert_eq!(l, label_from_number(n));
    }
}

#[test]
fn all_bound_instances_keep_their_identity_at_new_addresses() {
    let stored = vec![instance("a", "127.0.0.1:1", 5), instance("b", "127.0.0.1:2", 6)];
    let bound = vec![Some("127.0.0.1:9001".to_string()), Some("127.0.0.1:9002".to_string())];
    let rows = restored_rows(&stored, &bound);
    assert_eq!(rows.len(), 2);
    for ((r, s), b) in rows.iter().zip(stored.iter()).zip(bound.iter()) {
        assert_eq!(r.label, s.label);
        assert_eq!(r.remote, s.remote);
        assert_eq!(r.scope_host, s.scope_host);
        assert_eq!(Some(r.local.clone()), *b);
        assert_eq!(r.latency, UNKNOWN_LATENCY);
    }
}

fn row(host: &str, features: &str) -> ScopeRow {
    ScopeRow {
        host: host.to_string(),
        name: format!("{host} CTF"),
        state: "allowed".to_string(),
        features: features.to_string(),
        settings: "{}".to_string(),
    }
}

#[test]
fn rows_survive_save_and_load() {
    let rows = vec![row("a.org", " x , y"), row("b.org", ""), row("c.org", "z")];
    let back = scope_rows(&scopes_from_rows(&rows));
    assert_eq!(back.len(), 3);
    for (b, r) in back.iter().zip(rows.iter()) {
        assert_eq!(b.host, r.host);
        assert_eq!(b.name, r.name);
        assert_eq!(b.state, r.state);
        assert_eq!(b.settings, r.settings);
    }
    assert_eq!(back[0].features, "x,y");
    assert_eq!(back[1].features, "");
    assert_eq!(back[2].features, "z");
    let again = scope_rows(&scopes_from_rows(&back));
    for (a, b) in again.iter().zip(back.iter()) {
        assert_eq!(a.features, b.features);
    }
    assert!(scope_rows(&scopes_from_rows(&vec![])).is_empty());
}
