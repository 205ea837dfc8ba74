use carton::mc::{mc_input_action, release_versions, McInput, Version};

fn v(id: &str, t: &str) -> Version {
    Version { id: id.to_string(), version_type: t.to_string() }
}

#[test]
fn only_releases_in_order() {
    let all = vec![v("24w14a", "snapshot"), v("1.20.4", "release"), v("1.20.3", "release"), v("b1.7", "old_beta")];
    let r = release_versions(&all);
    let ids: Vec<&str> = r.iter().map(|x| x.id.as_str()).collect();
    assert_eq!(ids, vec!["1.20.4", "1.20.3"]);
    assert!(release_versions(&vec![]).is_empty());
}

#[test]
fn version_prompt() {
    let vs = vec![v("1.20.1", "release"), v("list", "release")];
    assert_eq!(mc_input_action("0", &vs), McInput::Cancel);
    assert_eq!(mc_input_action("list", &vs), McInput::List);
    assert_eq!(mc_input_action("1.20.1", &vs), McInput::Accept);
    assert_eq!(mc_input_action("1.20", &vs), McInput::NoMatch);
}
