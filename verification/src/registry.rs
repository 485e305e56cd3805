//! What the player knows of the audio graph: the link factory and the nodes
//! of the two applications it plays into, and how the announcements of the
//! graph's registry update that knowledge.
use vstd::prelude::*;

use crate::text::{contains_chars, occurs_at, parse_u32, parse_u32_spec, str_contains, str_eq};

verus! {

/// The characters of an optional string.
pub open spec fn opt_chars(o: Option<String>) -> Option<Seq<char>> {
    match o {
        Some(s) => Some(s@),
        None => None,
    }
}

/// The characters of an optional borrowed string.
pub open spec fn opt_ref_chars(o: Option<&String>) -> Option<Seq<char>> {
    match o {
        Some(s) => Some(s@),
        None => None,
    }
}

/// The latest names that the registry announced.
pub struct State {
    factory: Option<String>,
    loopback_node: Option<String>,
    discord_node: Option<String>,
}

/// What a [`State`] holds, as character sequences.
pub struct StateView {
    /// Name of the factory that makes links.
    pub factory: Option<Seq<char>>,
    /// Node id of the loopback output port.
    pub loopback_node: Option<Seq<char>>,
    /// Node id of the voice-chat input port.
    pub discord_node: Option<Seq<char>>,
}

impl View for State {
    type V = StateView;

    closed spec fn view(&self) -> StateView {
        StateView {
            factory: opt_chars(self.factory),
            loopback_node: opt_chars(self.loopback_node),
            discord_node: opt_chars(self.discord_node),
        }
    }
}

/// The properties of a registry announcement that the player reads,
/// each absent when the announcement does not carry it.
pub struct GlobalProps {
    /// `factory.type.name`
    pub factory_type_name: Option<String>,
    /// `factory.name`
    pub factory_name: Option<String>,
    /// `port.alias`
    pub port_alias: Option<String>,
    /// `port.direction`
    pub port_direction: Option<String>,
    /// `node.id`
    pub node_id: Option<String>,
}

/// What a [`GlobalProps`] holds, as character sequences.
pub struct GlobalPropsView {
    pub factory_type_name: Option<Seq<char>>,
    pub factory_name: Option<Seq<char>>,
    pub port_alias: Option<Seq<char>>,
    pub port_direction: Option<Seq<char>>,
    pub node_id: Option<Seq<char>>,
}

impl View for GlobalProps {
    type V = GlobalPropsView;

    open spec fn view(&self) -> GlobalPropsView {
        GlobalPropsView {
            factory_type_name: opt_chars(self.factory_type_name),
            factory_name: opt_chars(self.factory_name),
            port_alias: opt_chars(self.port_alias),
            port_direction: opt_chars(self.port_direction),
            node_id: opt_chars(self.node_id),
        }
    }
}

/// What an announcement told the player.
#[derive(PartialEq, Eq, Structural, Debug, Clone, Copy)]
pub enum GlobalEvent {
    /// Nothing the player keeps.
    Ignored,
    /// The factory that makes links.
    FactoryFound,
    /// The input port of the voice-chat application.
    DiscordFound,
    /// The output port of the loopback device.
    LoopbackFound,
}

/// An announcement that the player cannot take: the program stops on it.
#[derive(PartialEq, Eq, Structural, Debug, Clone, Copy)]
pub enum GlobalFault {
    /// A link factory without a `factory.name`.
    FactoryWithoutName,
    /// A port of interest without a `node.id`.
    NodeWithoutId,
}

/// The event that an announcement with properties `p` stands for, where
/// `link_type` is the type name of link factories.
pub open spec fn global_event(p: GlobalPropsView, link_type: Seq<char>) -> GlobalEvent {
    if p.factory_type_name == Some(link_type) {
        GlobalEvent::FactoryFound
    } else {
        match p.port_alias {
            None => GlobalEvent::Ignored,
            Some(alias) => {
                if contains_chars(alias, "WEBRTC"@) {
                    if p.port_direction == Some("in"@) {
                        GlobalEvent::DiscordFound
                    } else {
                        GlobalEvent::Ignored
                    }
                } else if contains_chars(alias, "MOMENTUM"@) {
                    if p.port_direction == Some("out"@) {
                        GlobalEvent::LoopbackFound
                    } else {
                        GlobalEvent::Ignored
                    }
                } else {
                    GlobalEvent::Ignored
                }
            },
        }
    }
}

/// The fault of an announcement, if it has one.
pub open spec fn global_fault_spec(p: GlobalPropsView, link_type: Seq<char>) -> Option<GlobalFault> {
    match global_event(p, link_type) {
        GlobalEvent::FactoryFound => if p.factory_name is None {
            Some(GlobalFault::FactoryWithoutName)
        } else {
            None
        },
        GlobalEvent::DiscordFound | GlobalEvent::LoopbackFound => if p.node_id is None {
            Some(GlobalFault::NodeWithoutId)
        } else {
            None
        },
        GlobalEvent::Ignored => None,
    }
}

/// The state after an announcement with properties `p` (`None`: one without
/// properties) reached a player in state `s`.
pub open spec fn after_global(s: StateView, p: Option<GlobalPropsView>, link_type: Seq<char>) -> StateView {
    match p {
        None => s,
        Some(p) => match global_event(p, link_type) {
            GlobalEvent::FactoryFound => StateView { factory: p.factory_name, ..s },
            GlobalEvent::DiscordFound => StateView { discord_node: p.node_id, ..s },
            GlobalEvent::LoopbackFound => StateView { loopback_node: p.node_id, ..s },
            GlobalEvent::Ignored => s,
        },
    }
}

/// The node a new playback stream goes to from a player in state `s`.
pub open spec fn stream_target_spec(s: StateView) -> Option<u32> {
    match s.discord_node {
        Some(id) => parse_u32_spec(id),
        None => None,
    }
}

/// Law: once the registry announced the voice-chat input port, new playback
/// streams go to that port's node; an announcement of any other kind leaves
/// the target of new streams as it was.
pub proof fn law_announced_port_is_target(s: StateView, p: GlobalPropsView, link_type: Seq<char>)
    requires
        global_fault_spec(p, link_type) is None,
    ensures
        global_event(p, link_type) == GlobalEvent::DiscordFound ==> stream_target_spec(
            after_global(s, Some(p), link_type),
        ) == parse_u32_spec(p.node_id->0),
        global_event(p, link_type) != GlobalEvent::DiscordFound ==> stream_target_spec(
            after_global(s, Some(p), link_type),
        ) == stream_target_spec(s),
{
}

/// Law: an announcement changes at most the one name that its event names,
/// and one the player ignores changes nothing.
pub proof fn law_announcement_changes_one_name(s: StateView, p: GlobalPropsView, link_type: Seq<char>)
    ensures
        ({
            let t = after_global(s, Some(p), link_type);
            match global_event(p, link_type) {
                GlobalEvent::FactoryFound => t.loopback_node == s.loopback_node && t.discord_node == s.discord_node,
                GlobalEvent::DiscordFound => t.factory == s.factory && t.loopback_node == s.loopback_node,
                GlobalEvent::LoopbackFound => t.factory == s.factory && t.discord_node == s.discord_node,
                GlobalEvent::Ignored => t == s,
            }
        }),
{
}

/// Law: the latest announcement wins. Whatever the player knew before, an
/// announcement of the link factory leaves exactly its `factory.name` as the
/// factory, one of the voice-chat input port leaves exactly its `node.id` as
/// the voice-chat node, and one of the loopback output port leaves exactly
/// its `node.id` as the loopback node.
pub proof fn law_latest_announcement_wins(s: StateView, p: GlobalPropsView, link_type: Seq<char>)
    ensures
        global_event(p, link_type) == GlobalEvent::FactoryFound ==> after_global(s, Some(p), link_type).factory
            == p.factory_name,
        global_event(p, link_type) == GlobalEvent::DiscordFound ==> after_global(
            s,
            Some(p),
            link_type,
        ).discord_node == p.node_id,
        global_event(p, link_type) == GlobalEvent::LoopbackFound ==> after_global(
            s,
            Some(p),
            link_type,
        ).loopback_node == p.node_id,
{
}

/// Law: an announcement is refused exactly when it lacks the one property
/// the player records from it: a link factory when it has no `factory.name`,
/// a voice-chat or loopback port when it has no `node.id`; an announcement
/// the player ignores is never refused.
pub proof fn law_fault_is_missing_property(p: GlobalPropsView, link_type: Seq<char>)
    ensures
        global_event(p, link_type) == GlobalEvent::FactoryFound ==> (global_fault_spec(p, link_type) == Some(
            GlobalFault::FactoryWithoutName,
        ) <==> p.factory_name is None),
        global_event(p, link_type) == GlobalEvent::FactoryFound ==> (global_fault_spec(p, link_type) is None
            <==> p.factory_name is Some),
        (global_event(p, link_type) == GlobalEvent::DiscordFound || global_event(p, link_type)
            == GlobalEvent::LoopbackFound) ==> (global_fault_spec(p, link_type) == Some(
            GlobalFault::NodeWithoutId,
        ) <==> p.node_id is None),
        (global_event(p, link_type) == GlobalEvent::DiscordFound || global_event(p, link_type)
            == GlobalEvent::LoopbackFound) ==> (global_fault_spec(p, link_type) is None <==> p.node_id is Some),
        global_event(p, link_type) == GlobalEvent::Ignored ==> global_fault_spec(p, link_type) is None,
{
}

/// Law: how an announcement is classified, from its properties alone.
/// A `factory.type.name` equal to the link type makes it the link factory.
/// Otherwise, an alias that contains `WEBRTC` anywhere makes it the
/// voice-chat input port exactly when `port.direction` is `in`; an alias
/// without `WEBRTC` that contains `MOMENTUM` anywhere makes it the loopback
/// output port exactly when `port.direction` is `out`; nothing else counts.
pub proof fn law_classification(p: GlobalPropsView, link_type: Seq<char>)
    ensures
        p.factory_type_name == Some(link_type) ==> global_event(p, link_type) == GlobalEvent::FactoryFound,
        p.factory_type_name != Some(link_type) ==> global_event(p, link_type) != GlobalEvent::FactoryFound,
        p.factory_type_name != Some(link_type) && p.port_alias is None ==> global_event(p, link_type)
            == GlobalEvent::Ignored,
        p.factory_type_name != Some(link_type) && p.port_alias is Some ==> (global_event(p, link_type)
            == GlobalEvent::DiscordFound <==> contains_chars(p.port_alias->0, "WEBRTC"@) && p.port_direction
            == Some("in"@)),
        p.factory_type_name != Some(link_type) && p.port_alias is Some ==> (global_event(p, link_type)
            == GlobalEvent::LoopbackFound <==> !contains_chars(p.port_alias->0, "WEBRTC"@) && contains_chars(
            p.port_alias->0,
            "MOMENTUM"@,
        ) && p.port_direction == Some("out"@)),
{
}

/// A word stands in any text made of something, the word, and something.
pub proof fn lemma_contains_in_middle(before: Seq<char>, word: Seq<char>, after: Seq<char>)
    ensures
        contains_chars(before + word + after, word),
{
    let hay = before + word + after;
    assert(hay.subrange(before.len() as int, (before.len() + word.len()) as int) =~= word);
    assert(occurs_at(hay, word, before.len() as int));
}

/// Law: where in the alias the word stands does not matter. A port whose
/// alias is anything, then `MOMENTUM`, then anything, without `WEBRTC`,
/// announced with direction `out` and a node id, is the loopback output port
/// and leaves that node id recorded; one with `WEBRTC` anywhere in the alias
/// and direction `in` is the voice-chat input port and leaves its node id
/// recorded.
pub proof fn law_word_anywhere_in_alias(
    s: StateView,
    p: GlobalPropsView,
    link_type: Seq<char>,
    before: Seq<char>,
    after: Seq<char>,
)
    requires
        p.factory_type_name != Some(link_type),
    ensures
        p.port_alias == Some(before + "MOMENTUM"@ + after) && !contains_chars(before + "MOMENTUM"@ + after, "WEBRTC"@)
            && p.port_direction == Some("out"@) ==> global_event(p, link_type) == GlobalEvent::LoopbackFound
            && after_global(s, Some(p), link_type).loopback_node == p.node_id,
        p.port_alias == Some(before + "WEBRTC"@ + after) && p.port_direction == Some("in"@) ==> global_event(
            p,
            link_type,
        ) == GlobalEvent::DiscordFound && after_global(s, Some(p), link_type).discord_node == p.node_id,
{
    lemma_contains_in_middle(before, "MOMENTUM"@, after);
    lemma_contains_in_middle(before, "WEBRTC"@, after);
}

/// Whether `o` holds exactly the characters of `lit`.
fn opt_is(o: &Option<String>, lit: &str) -> (r: bool)
    ensures
        r == (opt_chars(*o) == Some(lit@)),
{
    match o {
        Some(s) => str_eq(s.as_str(), lit),
        None => false,
    }
}

/// Classifies an announcement with properties `props`, where `link_type` is
/// the type name of link factories.
pub fn classify_global(props: &GlobalProps, link_type: &str) -> (r: GlobalEvent)
    ensures
        r == global_event(props@, link_type@),
{
    let is_link = match &props.factory_type_name {
        Some(t) => str_eq(t.as_str(), link_type),
        None => false,
    };
    if is_link {
        return GlobalEvent::FactoryFound;
    }
    match &props.port_alias {
        None => GlobalEvent::Ignored,
        Some(alias) => {
            if str_contains(alias.as_str(), "WEBRTC") {
                if opt_is(&props.port_direction, "in") {
                    GlobalEvent::DiscordFound
                } else {
                    GlobalEvent::Ignored
                }
            } else if str_contains(alias.as_str(), "MOMENTUM") {
                if opt_is(&props.port_direction, "out") {
                    GlobalEvent::LoopbackFound
                } else {
                    GlobalEvent::Ignored
                }
            } else {
                GlobalEvent::Ignored
            }
        },
    }
}

/// The fault of an announcement with properties `props`, if it has one:
/// [`State::on_global`] takes exactly the announcements without one.
pub fn global_fault(props: &GlobalProps, link_type: &str) -> (r: Option<GlobalFault>)
    ensures
        r == global_fault_spec(props@, link_type@),
{
    match classify_global(props, link_type) {
        GlobalEvent::FactoryFound => if props.factory_name.is_none() {
            Some(GlobalFault::FactoryWithoutName)
        } else {
            None
        },
        GlobalEvent::DiscordFound | GlobalEvent::LoopbackFound => if props.node_id.is_none() {
            Some(GlobalFault::NodeWithoutId)
        } else {
            None
        },
        GlobalEvent::Ignored => None,
    }
}

/// Whether a `done` event with `id` and sequence number `seq` answers the
/// sync request `pending` sent to the core object `core_id`.
pub fn roundtrip_done(id: u32, seq: i32, core_id: u32, pending: i32) -> (r: bool)
    ensures
        r == (id == core_id && seq == pending),
{
    id == core_id && seq == pending
}

impl State {
    /// A player that knows nothing of the graph yet.
    pub fn new() -> (s: Self)
        ensures
            s@ == (StateView { factory: None, loopback_node: None, discord_node: None }),
    {
        State { factory: None, loopback_node: None, discord_node: None }
    }

    /// Records the name of the link factory.
    pub fn set_factory(&mut self, factory: String)
        ensures
            final(self)@ == (StateView { factory: Some(factory@), ..old(self)@ }),
    {
        self.factory = Some(factory);
    }

    /// Records (or forgets) the node of the loopback output port.
    pub fn set_loopback(&mut self, loopback_node: Option<String>)
        ensures
            final(self)@ == (StateView { loopback_node: opt_chars(loopback_node), ..old(self)@ }),
    {
        self.loopback_node = loopback_node;
    }

    /// Records (or forgets) the node of the voice-chat input port.
    pub fn set_discord(&mut self, discord_node: Option<String>)
        ensures
            final(self)@ == (StateView { discord_node: opt_chars(discord_node), ..old(self)@ }),
    {
        self.discord_node = discord_node;
    }

    /// The recorded link factory name.
    pub fn factory(&self) -> (r: Option<&String>)
        ensures
            opt_ref_chars(r) == self@.factory,
    {
        self.factory.as_ref()
    }

    /// The recorded loopback node id.
    pub fn loopback_node(&self) -> (r: Option<&String>)
        ensures
            opt_ref_chars(r) == self@.loopback_node,
    {
        self.loopback_node.as_ref()
    }

    /// The recorded voice-chat node id.
    pub fn discord_node(&self) -> (r: Option<&String>)
        ensures
            opt_ref_chars(r) == self@.discord_node,
    {
        self.discord_node.as_ref()
    }

    /// Takes a registry announcement with properties `props` (`None`: one
    /// without properties), where `link_type` is the type name of link
    /// factories, and says what it was.
    pub fn on_global(&mut self, props: Option<&GlobalProps>, link_type: &str) -> (r: GlobalEvent)
        requires
            props matches Some(p) ==> global_fault_spec(p@, link_type@) is None,
        ensures
            r == match props {
                Some(p) => global_event(p@, link_type@),
                None => GlobalEvent::Ignored,
            },
            final(self)@ == after_global(
                old(self)@,
                match props {
                    Some(p) => Some(p@),
                    None => None,
                },
                link_type@,
            ),
    {
        match props {
            None => GlobalEvent::Ignored,
            Some(p) => {
                let ev = classify_global(p, link_type);
                match ev {
                    GlobalEvent::FactoryFound => {
                        match &p.factory_name {
                            Some(name) => self.set_factory(name.clone()),
                            None => {},
                        }
                    },
                    GlobalEvent::DiscordFound => {
                        self.set_discord(p.node_id.clone());
                    },
                    GlobalEvent::LoopbackFound => {
                        self.set_loopback(p.node_id.clone());
                    },
                    GlobalEvent::Ignored => {},
                }
                ev
            },
        }
    }

    /// The node to connect a new playback stream to: `None` while no
    /// voice-chat port is known, else its node id as a number.
    pub fn stream_target(&self) -> (r: Option<u32>)
        requires
            self@.discord_node matches Some(id) ==> parse_u32_spec(id) is Some,
        ensures
            r == stream_target_spec(self@),
    {
        match &self.discord_node {
            Some(id) => parse_u32(id.as_str()),
            None => None,
        }
    }
}

} // verus!
