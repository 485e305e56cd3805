use rustboard::registry::{global_fault, roundtrip_done, GlobalEvent, GlobalFault, GlobalProps, State};

const LINK: &str = "PipeWire:Interface:Link";

fn props(
    factory_type_name: Option<&str>,
    factory_name: Option<&str>,
    port_alias: Option<&str>,
    port_direction: Option<&str>,
    node_id: Option<&str>,
) -> GlobalProps {
    GlobalProps {
        factory_type_name: factory_type_name.map(|s| s.to_string()),
        factory_name: factory_name.map(|s| s.to_string()),
        port_alias: port_alias.map(|s| s.to_string()),
        port_direction: port_direction.map(|s| s.to_string()),
        node_id: node_id.map(|s| s.to_string()),
    }
}

fn s(o: Option<&String>) -> Option<&str> {
    o.map(|x| x.as_str())
}

#[test]
fn new_state_knows_nothing() {
    let st = State::new();
    assert_eq!(s(st.factory()), None);
    assert_eq!(s(st.loopback_node()), None);
    assert_eq!(s(st.discord_node()), None);
    assert_eq!(st.stream_target(), None);
}

#[test]
fn setters_change_one_name() {
    let mut st = State::new();
    st.set_factory("link-factory".to_string());
    st.set_loopback(Some("31".to_string()));
    st.set_discord(Some("77".to_string()));
    assert_eq!(s(st.factory()), Some("link-factory"));
    assert_eq!(s(st.loopback_node()), Some("31"));
    assert_eq!(s(st.discord_node()), Some("77"));
    st.set_discord(None);
    assert_eq!(s(st.discord_node()), None);
    assert_eq!(s(st.loopback_node()), Some("31"));
}

#[test]
fn link_factory_is_recorded() {
    let mut st = State::new();
    let p = props(Some(LINK), Some("link-factory"), None, None, None);
    assert_eq!(global_fault(&p, LINK), None);
    assert_eq!(st.on_global(Some(&p), LINK), GlobalEvent::FactoryFound);
    assert_eq!(s(st.factory()), Some("link-factory"));
}

#[test]
fn link_factory_without_name_is_a_fault() {
    let p = props(Some(LINK), None, None, None, None);
    assert_eq!(global_fault(&p, LINK), Some(GlobalFault::FactoryWithoutName));
}

#[test]
fn other_factory_is_not_recorded() {
    let mut st = State::new();
    let p = props(Some("PipeWire:Interface:Node"), Some("adapter"), None, None, None);
    assert_eq!(st.on_global(Some(&p), LINK), GlobalEvent::Ignored);
    assert_eq!(s(st.factory()), None);
}

#[test]
fn voice_chat_input_port_is_recorded() {
    let mut st = State::new();
    let p = props(None, None, Some("WEBRTC VoiceEngine:input_FL"), Some("in"), Some("57"));
    assert_eq!(global_fault(&p, LINK), None);
    assert_eq!(st.on_global(Some(&p), LINK), GlobalEvent::DiscordFound);
    assert_eq!(s(st.discord_node()), Some("57"));
    assert_eq!(st.stream_target(), Some(57));
}

#[test]
fn voice_chat_output_port_is_ignored() {
    let mut st = State::new();
    let p = props(None, None, Some("WEBRTC VoiceEngine:output_FL"), Some("out"), Some("57"));
    assert_eq!(st.on_global(Some(&p), LINK), GlobalEvent::Ignored);
    assert_eq!(s(st.discord_node()), None);
    assert_eq!(s(st.loopback_node()), None);
}

#[test]
fn voice_chat_port_wins_over_loopback_in_one_alias() {
    let mut st = State::new();
    let p = props(None, None, Some("WEBRTC MOMENTUM"), Some("out"), Some("9"));
    assert_eq!(st.on_global(Some(&p), LINK), GlobalEvent::Ignored);
    assert_eq!(s(st.loopback_node()), None);
    let p = props(None, None, Some("WEBRTC MOMENTUM"), Some("in"), Some("9"));
    assert_eq!(st.on_global(Some(&p), LINK), GlobalEvent::DiscordFound);
    assert_eq!(s(st.discord_node()), Some("9"));
    assert_eq!(s(st.loopback_node()), None);
}

#[test]
fn loopback_output_port_is_recorded() {
    let mut st = State::new();
    let p = props(None, None, Some("MOMENTUM 7:monitor_FL"), Some("out"), Some("31"));
    assert_eq!(st.on_global(Some(&p), LINK), GlobalEvent::LoopbackFound);
    assert_eq!(s(st.loopback_node()), Some("31"));
    assert_eq!(st.stream_target(), None);
    let q = props(None, None, Some("MOMENTUM 7:playback_FL"), Some("in"), Some("32"));
    assert_eq!(st.on_global(Some(&q), LINK), GlobalEvent::Ignored);
    assert_eq!(s(st.loopback_node()), Some("31"));
}

#[test]
fn port_without_node_id_is_a_fault() {
    let p = props(None, None, Some("MOMENTUM 7:monitor_FL"), Some("out"), None);
    assert_eq!(global_fault(&p, LINK), Some(GlobalFault::NodeWithoutId));
    let p = props(None, None, Some("WEBRTC"), Some("in"), None);
    assert_eq!(global_fault(&p, LINK), Some(GlobalFault::NodeWithoutId));
    let p = props(None, None, Some("WEBRTC"), Some("out"), None);
    assert_eq!(global_fault(&p, LINK), None);
}

#[test]
fn announcement_without_properties_changes_nothing() {
    let mut st = State::new();
    st.set_discord(Some("3".to_string()));
    assert_eq!(st.on_global(None, LINK), GlobalEvent::Ignored);
    assert_eq!(s(st.discord_node()), Some("3"));
    let p = props(None, None, Some("speaker"), Some("in"), Some("4"));
    assert_eq!(st.on_global(Some(&p), LINK), GlobalEvent::Ignored);
    assert_eq!(s(st.discord_node()), Some("3"));
}

#[test]
fn roundtrip_is_done_on_the_core_answer() {
    assert!(roundtrip_done(0, 5, 0, 5));
    assert!(!roundtrip_done(1, 5, 0, 5));
    assert!(!roundtrip_done(0, 6, 0, 5));
}
