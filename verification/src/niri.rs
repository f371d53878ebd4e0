//! The declarative-config backend: decodes `Mod+Shift+T`-style node names
//! from a node-tree configuration document into the keybind model.
//!
//! Modifier tokens resolve case-sensitively through a fixed alias table;
//! an unrecognized token fails only the node that carries it.
use vstd::prelude::*;
use vstd::string::StringExecFns;

use crate::error::DiscoveryError;
use crate::kdl_bridge::{
    doc_node, doc_node_count, doc_nodes_of, kdl_parses, node_children, node_children_of,
    node_entries_of, node_entry, node_entry_count, node_name, node_name_of, parse_document,
    parsed_nodes_of, ConfigValue, ConfigValueView, NodeEntryView,
};
use crate::keybind::{spec_modifier_name, spec_mods_prefix, Keybind, KeybindView, Modifier};
use crate::source::Source;
use crate::text::{
    contains_char, dec_i128, join_strings, spec_contains_char, spec_dec_int, spec_join, spec_split,
    split_char, str_eq,
};

verus! {

/// The declarative source's modifier table: case-sensitive, with the
/// known aliases.
pub open spec fn spec_niri_modifier(seg: Seq<char>) -> Option<Modifier> {
    if seg == "Mod"@ {
        Some(Modifier::Mod)
    } else if seg == "Super"@ || seg == "Win"@ {
        Some(Modifier::Super)
    } else if seg == "Alt"@ {
        Some(Modifier::Alt)
    } else if seg == "Ctrl"@ || seg == "Control"@ {
        Some(Modifier::Ctrl)
    } else if seg == "Shift"@ {
        Some(Modifier::Shift)
    } else if seg == "ISO_Level3_Shift"@ || seg == "Mod5"@ {
        Some(Modifier::IsoLevel3Shift)
    } else if seg == "ISO_Level5_Shift"@ || seg == "Mod3"@ {
        Some(Modifier::IsoLevel5Shift)
    } else {
        None
    }
}

/// Resolves every segment through the table; the first unresolvable
/// segment is the error.
pub open spec fn spec_niri_mods(segs: Seq<Seq<char>>) -> Result<Seq<Modifier>, Seq<char>>
    decreases segs.len(),
{
    if segs.len() == 0 {
        Ok(Seq::<Modifier>::empty())
    } else {
        match spec_niri_modifier(segs[0]) {
            None => Err(segs[0]),
            Some(m) => match spec_niri_mods(segs.drop_first()) {
                Ok(rest) => Ok(seq![m] + rest),
                Err(t) => Err(t),
            },
        }
    }
}

pub proof fn lemma_niri_mods_ok(segs: Seq<Seq<char>>)
    requires
        forall|j: int| 0 <= j < segs.len() ==> spec_niri_modifier(#[trigger] segs[j]) is Some,
    ensures
        spec_niri_mods(segs) is Ok,
        spec_niri_mods(segs)->Ok_0.len() == segs.len(),
        forall|j: int|
            0 <= j < segs.len() ==> #[trigger] spec_niri_mods(segs)->Ok_0[j] == spec_niri_modifier(
                segs[j],
            )->0,
    decreases segs.len(),
{
    if segs.len() > 0 {
        lemma_niri_mods_ok(segs.drop_first());
    }
}

pub proof fn lemma_niri_mods_err(segs: Seq<Seq<char>>, i: int)
    requires
        0 <= i < segs.len(),
        forall|j: int| 0 <= j < i ==> spec_niri_modifier(#[trigger] segs[j]) is Some,
        spec_niri_modifier(segs[i]) is None,
    ensures
        spec_niri_mods(segs) == Result::<Seq<Modifier>, Seq<char>>::Err(segs[i]),
    decreases i,
{
    if i > 0 {
        lemma_niri_mods_err(segs.drop_first(), i - 1);
    }
}

pub proof fn lemma_niri_mods_ok_inv(segs: Seq<Seq<char>>)
    requires
        spec_niri_mods(segs) is Ok,
    ensures
        forall|j: int| 0 <= j < segs.len() ==> spec_niri_modifier(#[trigger] segs[j]) is Some,
    decreases segs.len(),
{
    if segs.len() > 0 {
        lemma_niri_mods_ok_inv(segs.drop_first());
        assert forall|j: int| 0 <= j < segs.len() implies spec_niri_modifier(
            #[trigger] segs[j],
        ) is Some by {
            if j > 0 {
                assert(segs[j] == segs.drop_first()[j - 1]);
            }
        }
    }
}

/// The declarative source's key-combination reading: split on `+`, every
/// segment but the last resolves to a modifier, the last is the key.
pub open spec fn spec_niri_decode(combo: Seq<char>) -> Result<(Seq<Modifier>, Seq<char>), Seq<
    char,
>> {
    let parts = spec_split(combo, '+');
    match spec_niri_mods(parts.drop_last()) {
        Ok(mods) => Ok((mods, parts.last())),
        Err(t) => Err(t),
    }
}

fn niri_modifier(seg: &str) -> (r: Option<Modifier>)
    ensures
        r == spec_niri_modifier(seg@),
{
    if str_eq(seg, "Mod") {
        Some(Modifier::Mod)
    } else if str_eq(seg, "Super") || str_eq(seg, "Win") {
        Some(Modifier::Super)
    } else if str_eq(seg, "Alt") {
        Some(Modifier::Alt)
    } else if str_eq(seg, "Ctrl") || str_eq(seg, "Control") {
        Some(Modifier::Ctrl)
    } else if str_eq(seg, "Shift") {
        Some(Modifier::Shift)
    } else if str_eq(seg, "ISO_Level3_Shift") || str_eq(seg, "Mod5") {
        Some(Modifier::IsoLevel3Shift)
    } else if str_eq(seg, "ISO_Level5_Shift") || str_eq(seg, "Mod3") {
        Some(Modifier::IsoLevel5Shift)
    } else {
        None
    }
}

/// The canonical display names of a row of modifiers, in order.
pub open spec fn spec_canonical_names(mods: Seq<Modifier>) -> Seq<Seq<char>> {
    mods.map_values(|m: Modifier| spec_modifier_name(m))
}

/// The canonical text of a valid combination: each modifier segment
/// replaced by its canonical name, the key kept, joined with `+` in the
/// original order.
pub open spec fn spec_canonical_combo(combo: Seq<char>) -> Seq<char> {
    let parts = spec_split(combo, '+');
    match spec_niri_mods(parts.drop_last()) {
        Ok(mods) => spec_join(spec_canonical_names(mods).push(parts.last()), "+"@),
        Err(_) => combo,
    }
}

proof fn lemma_mods_prefix_join(mods: Seq<Modifier>, key: Seq<char>)
    ensures
        spec_mods_prefix(mods) + key == spec_join(spec_canonical_names(mods).push(key), "+"@),
    decreases mods.len(),
{
    let names = spec_canonical_names(mods);
    if mods.len() == 0 {
        assert(names.push(key) =~= seq![key]);
        assert(spec_mods_prefix(mods) + key =~= key);
    } else {
        let ms = mods.drop_last();
        let m = mods.last();
        lemma_mods_prefix_join(ms, spec_modifier_name(m));
        assert(spec_canonical_names(ms).push(spec_modifier_name(m)) =~= names);
        assert(names.push(key).drop_last() =~= names);
        assert(spec_mods_prefix(mods) + key =~= (spec_mods_prefix(ms) + spec_modifier_name(m))
            + "+"@ + key);
        assert(spec_join(names.push(key), "+"@) == spec_join(names, "+"@) + "+"@ + key);
    }
}

/// Decoding a valid combination and rendering the result round-trips:
/// the rendered modifier prefix followed by the key is the combination's
/// canonical text, with the original segment order preserved, not
/// sorted.
pub proof fn lemma_decode_render_roundtrip(combo: Seq<char>)
    requires
        spec_niri_decode(combo) is Ok,
    ensures
        spec_mods_prefix(spec_niri_decode(combo)->Ok_0.0) + spec_niri_decode(combo)->Ok_0.1
            == spec_canonical_combo(combo),
{
    let parts = spec_split(combo, '+');
    let mods = spec_niri_mods(parts.drop_last())->Ok_0;
    lemma_mods_prefix_join(mods, parts.last());
}

/// Whether `char::is_lowercase` holds of a character: a property of the
/// character alone.
pub uninterp spec fn is_lower_char(c: char) -> bool;

/// Relies on char::is_lowercase: a property of the character alone; on
/// ASCII it holds exactly of `a` through `z`.
#[verifier::external_body]
fn char_is_lowercase(c: char) -> (r: bool)
    ensures
        r == is_lower_char(c),
        'a' <= c && c <= 'z' ==> r,
        (c as u32) < 128 && !('a' <= c && c <= 'z') ==> !r,
{
    c.is_lowercase()
}

/// Whether a child of the binds section is taken for a keybind node: its
/// name holds a `+`, or does not start with a lowercase letter (an empty
/// name counts a space as its first character). A kept convention, not a
/// grammar rule: it excludes stray lowercase-named children while
/// admitting bare special key names.
pub open spec fn spec_bind_candidate(name: Seq<char>) -> bool {
    spec_contains_char(name, '+') || !is_lower_char(
        if name.len() == 0 {
            ' '
        } else {
            name[0]
        },
    )
}

fn is_bind_candidate(name: &str) -> (r: bool)
    ensures
        r == spec_bind_candidate(name@),
{
    if contains_char(name, '+') {
        true
    } else {
        let c = if name.unicode_len() == 0 {
            ' '
        } else {
            name.get_char(0)
        };
        !char_is_lowercase(c)
    }
}

/// The optional behavioral properties of a keybind node.
pub struct PropsView {
    pub description: Option<Seq<char>>,
    pub repeat: Option<bool>,
    pub cooldown_ms: Option<u64>,
    pub allow_when_locked: Option<bool>,
    pub allow_inhibiting: Option<bool>,
}

/// How one entry updates the properties read so far: a recognized
/// property name takes the entry's value when it has the expected type
/// and drops to absent otherwise; a cooldown outside the representable
/// range is likewise dropped; everything else is ignored.
pub open spec fn spec_apply_entry(p: PropsView, e: NodeEntryView) -> PropsView {
    match e.name {
        None => p,
        Some(nm) => {
            if nm == "hotkey-overlay-title"@ {
                PropsView {
                    description: match e.value {
                        ConfigValueView::Str(s) => Some(s),
                        _ => None,
                    },
                    ..p
                }
            } else if nm == "repeat"@ {
                PropsView {
                    repeat: match e.value {
                        ConfigValueView::Bool(b) => Some(b),
                        _ => None,
                    },
                    ..p
                }
            } else if nm == "cooldown-ms"@ {
                PropsView {
                    cooldown_ms: match e.value {
                        ConfigValueView::Int(v) => if 0 <= v && v <= u64::MAX as int {
                            Some(v as u64)
                        } else {
                            None
                        },
                        _ => None,
                    },
                    ..p
                }
            } else if nm == "allow-when-locked"@ {
                PropsView {
                    allow_when_locked: match e.value {
                        ConfigValueView::Bool(b) => Some(b),
                        _ => None,
                    },
                    ..p
                }
            } else if nm == "allow-inhibiting"@ {
                PropsView {
                    allow_inhibiting: match e.value {
                        ConfigValueView::Bool(b) => Some(b),
                        _ => None,
                    },
                    ..p
                }
            } else {
                p
            }
        },
    }
}

/// The properties a node's entries yield, scanned in order; a later
/// entry for the same property overrides an earlier one.
pub open spec fn spec_props(entries: Seq<NodeEntryView>) -> PropsView
    decreases entries.len(),
{
    if entries.len() == 0 {
        PropsView {
            description: None,
            repeat: None,
            cooldown_ms: None,
            allow_when_locked: None,
            allow_inhibiting: None,
        }
    } else {
        spec_apply_entry(spec_props(entries.drop_last()), entries.last())
    }
}

/// The natural textual form of a value: strings quoted, integers and
/// booleans as written, floats as the text they render to, `null` for
/// anything else.
pub open spec fn spec_value_text(v: ConfigValueView) -> Seq<char> {
    match v {
        ConfigValueView::Str(s) => "\""@ + s + "\""@,
        ConfigValueView::Int(i) => spec_dec_int(i),
        ConfigValueView::Bool(b) => if b {
            "true"@
        } else {
            "false"@
        },
        ConfigValueView::FloatText(t) => t,
        ConfigValueView::Null => "null"@,
    }
}

/// The positional (unnamed) entry values, rendered, in encounter order.
pub open spec fn spec_action_args(entries: Seq<NodeEntryView>) -> Seq<Seq<char>>
    decreases entries.len(),
{
    if entries.len() == 0 {
        Seq::<Seq<char>>::empty()
    } else {
        spec_action_args(entries.drop_last()) + (match entries.last().name {
            None => seq![spec_value_text(entries.last().value)],
            Some(_) => Seq::<Seq<char>>::empty(),
        })
    }
}

/// The named entries, rendered as `name=value`, in encounter order.
pub open spec fn spec_action_props(entries: Seq<NodeEntryView>) -> Seq<Seq<char>>
    decreases entries.len(),
{
    if entries.len() == 0 {
        Seq::<Seq<char>>::empty()
    } else {
        spec_action_props(entries.drop_last()) + (match entries.last().name {
            None => Seq::<Seq<char>>::empty(),
            Some(nm) => seq![nm + "="@ + spec_value_text(entries.last().value)],
        })
    }
}

/// One action node's rendering: its name, then its space-joined
/// positional values, then its space-joined `name=value` properties.
pub open spec fn spec_action_node_text(name: Seq<char>, entries: Seq<NodeEntryView>) -> Seq<char> {
    let args = spec_action_args(entries);
    let props = spec_action_props(entries);
    name + (if args.len() == 0 {
        Seq::<char>::empty()
    } else {
        " "@ + spec_join(args, " "@)
    }) + (if props.len() == 0 {
        Seq::<char>::empty()
    } else {
        " "@ + spec_join(props, " "@)
    })
}

/// The renderings of a list of action nodes, in order.
pub open spec fn spec_action_list(children: Seq<kdl::KdlNode>) -> Seq<Seq<char>>
    decreases children.len(),
{
    if children.len() == 0 {
        Seq::<Seq<char>>::empty()
    } else {
        spec_action_list(children.drop_last()).push(
            spec_action_node_text(
                node_name_of(children.last()),
                node_entries_of(children.last()),
            ),
        )
    }
}

/// The action string of a keybind node: its child action nodes rendered
/// and comma-joined, or the literal `unknown` when it has no child block.
pub open spec fn spec_node_action(n: kdl::KdlNode) -> Seq<char> {
    match node_children_of(n) {
        None => "unknown"@,
        Some(cs) => spec_join(spec_action_list(cs), ", "@),
    }
}

/// The keybind one node of the binds section yields, or nothing when its
/// name does not decode as a key combination.
pub open spec fn spec_node_keybind(n: kdl::KdlNode) -> Option<KeybindView> {
    match spec_niri_decode(node_name_of(n)) {
        Err(_) => None,
        Ok(p) => {
            let props = spec_props(node_entries_of(n));
            Some(
                KeybindView {
                    modifiers: p.0,
                    key: p.1,
                    action: spec_node_action(n),
                    description: props.description,
                    program: "niri"@,
                    repeat: props.repeat,
                    cooldown_ms: props.cooldown_ms,
                    allow_when_locked: props.allow_when_locked,
                    allow_inhibiting: props.allow_inhibiting,
                },
            )
        },
    }
}

/// The keybinds the children of one binds section yield: candidates
/// whose names decode, in order; a node that fails to decode is dropped
/// alone.
pub open spec fn spec_binds_keybinds(children: Seq<kdl::KdlNode>) -> Seq<KeybindView>
    decreases children.len(),
{
    if children.len() == 0 {
        Seq::<KeybindView>::empty()
    } else {
        spec_binds_keybinds(children.drop_last()) + ({
            let n = children.last();
            if spec_bind_candidate(node_name_of(n)) {
                match spec_node_keybind(n) {
                    Some(kv) => seq![kv],
                    None => Seq::<KeybindView>::empty(),
                }
            } else {
                Seq::<KeybindView>::empty()
            }
        })
    }
}

/// The keybinds a whole document yields: the contents of every top-level
/// node literally named `binds` that has a child block, in order. No such
/// node yields an empty result, not an error.
pub open spec fn spec_doc_keybinds(nodes: Seq<kdl::KdlNode>) -> Seq<KeybindView>
    decreases nodes.len(),
{
    if nodes.len() == 0 {
        Seq::<KeybindView>::empty()
    } else {
        spec_doc_keybinds(nodes.drop_last()) + ({
            let n = nodes.last();
            if node_name_of(n) == "binds"@ && node_children_of(n) is Some {
                spec_binds_keybinds(node_children_of(n)->0)
            } else {
                Seq::<KeybindView>::empty()
            }
        })
    }
}

/// Renders a value in its natural textual form.
pub fn format_value(v: &ConfigValue) -> (r: String)
    ensures
        r@ == spec_value_text(v@),
{
    match v {
        ConfigValue::Str(s) => {
            let mut r = String::from_str("\"");
            r.append(s.as_str());
            r.append("\"");
            r
        },
        ConfigValue::Int(i) => dec_i128(*i),
        ConfigValue::Bool(b) => {
            if *b {
                String::from_str("true")
            } else {
                String::from_str("false")
            }
        },
        ConfigValue::FloatText(t) => t.clone(),
        ConfigValue::Null => String::from_str("null"),
    }
}

/// Renders one action node as `<name>[ <args>][ <props>]`.
fn format_action(n: &kdl::KdlNode) -> (r: String)
    ensures
        r@ == spec_action_node_text(node_name_of(*n), node_entries_of(*n)),
{
    let ghost entries = node_entries_of(*n);
    let mut result = node_name(n);
    let count = node_entry_count(n);
    let mut args: Vec<String> = Vec::new();
    let mut props: Vec<String> = Vec::new();
    let mut i: usize = 0;
    proof {
        assert(entries.take(0) =~= Seq::<NodeEntryView>::empty());
    }
    while i < count
        invariant
            i <= count,
            count == entries.len(),
            entries == node_entries_of(*n),
            args.deep_view() == spec_action_args(entries.take(i as int)),
            props.deep_view() == spec_action_props(entries.take(i as int)),
        decreases count - i,
    {
        let e = node_entry(n, i);
        match &e.name {
            None => {
                let ghost prev = args.deep_view();
                args.push(format_value(&e.value));
                proof {
                    assert(args.deep_view() =~= prev.push(spec_value_text(e.value@)));
                }
            },
            Some(nm) => {
                let mut p = nm.clone();
                p.append("=");
                let rendered = format_value(&e.value);
                p.append(rendered.as_str());
                let ghost prev = props.deep_view();
                props.push(p);
                proof {
                    assert(props.deep_view() =~= prev.push(
                        nm@ + "="@ + spec_value_text(e.value@),
                    ));
                }
            },
        }
        proof {
            assert(entries.take(i + 1).drop_last() =~= entries.take(i as int));
            assert(entries.take(i + 1).last() == entries[i as int]);
        }
        i += 1;
    }
    proof {
        assert(entries.take(count as int) =~= entries);
    }
    if args.len() > 0 {
        result.append(" ");
        let joined = join_strings(&args, " ");
        result.append(joined.as_str());
    }
    if props.len() > 0 {
        result.append(" ");
        let joined = join_strings(&props, " ");
        result.append(joined.as_str());
    }
    result
}

/// The declarative-config discovery backend. It holds the document text;
/// reading the file is its caller's concern.
pub struct NiriSource {
    /// The configuration document's full text.
    pub config: String,
}

impl NiriSource {
    /// A source over the given configuration document text.
    pub fn new(config: String) -> (r: Self)
        ensures
            r.config == config,
    {
        Self { config }
    }

    /// Decodes a `Mod+Shift+T`-style combination: every `+`-separated
    /// segment but the last must resolve through the modifier table; the
    /// last segment is the key. An unresolvable segment is the error.
    pub fn parse_key_combination(combo: &str) -> (r: Result<(Vec<Modifier>, String),
        DiscoveryError,
    >)
        ensures
            ({
                let d = spec_niri_decode(combo@);
                match r {
                    Ok(p) => d is Ok && p.0@ == d->Ok_0.0 && p.1@ == d->Ok_0.1,
                    Err(e) => d is Err && (e matches DiscoveryError::UnknownModifier(t) && t@
                        == d->Err_0),
                }
            }),
    {
        let parts = split_char(combo, '+');
        let n = parts.len() - 1;
        let ghost segs = spec_split(combo@, '+').drop_last();
        proof {
            assert(segs.len() == n);
            assert(forall|j: int| 0 <= j < n ==> segs[j] == parts.deep_view()[j]);
        }
        let mut mods: Vec<Modifier> = Vec::new();
        let mut i: usize = 0;
        while i < n
            invariant
                i <= n,
                n == parts.len() - 1,
                parts.len() >= 1,
                parts.deep_view() == spec_split(combo@, '+'),
                segs == spec_split(combo@, '+').drop_last(),
                segs.len() == n,
                forall|j: int| 0 <= j < n ==> segs[j] == parts.deep_view()[j],
                forall|j: int| 0 <= j < i ==> spec_niri_modifier(#[trigger] segs[j]) is Some,
                mods@.len() == i,
                forall|j: int|
                    0 <= j < i ==> #[trigger] mods@[j] == spec_niri_modifier(segs[j])->0,
            decreases n - i,
        {
            match niri_modifier(parts[i].as_str()) {
                Some(m) => mods.push(m),
                None => {
                    proof {
                        lemma_niri_mods_err(segs, i as int);
                    }
                    return Err(DiscoveryError::UnknownModifier(parts[i].clone()));
                },
            }
            i += 1;
        }
        let key = parts[n].clone();
        proof {
            lemma_niri_mods_ok(segs);
            assert(mods@ =~= spec_niri_mods(segs)->Ok_0);
            assert(key@ == spec_split(combo@, '+').last());
        }
        Ok((mods, key))
    }

    /// Parses the whole document text and extracts its keybinds. The
    /// call succeeds exactly when the node-tree parser accepts the text,
    /// and then yields precisely the keybinds of the parsed node tree; a
    /// malformed document is a single call-level parse error, while a
    /// keybind node that fails to decode has already been dropped alone.
    pub fn parse_config(&self, content: &str) -> (r: Result<Vec<Keybind>, DiscoveryError>)
        ensures
            r is Ok <==> kdl_parses(content@),
            r matches Err(e) ==> e matches DiscoveryError::ConfigParse(_),
            r matches Ok(v) ==> v.deep_view() == spec_doc_keybinds(parsed_nodes_of(content@)),
    {
        match parse_document(content) {
            Err(report) => Err(DiscoveryError::ConfigParse(report)),
            Ok(doc) => {
                let keybinds = extract_keybinds(&doc);
                proof {
                    assert(keybinds.deep_view() == spec_doc_keybinds(parsed_nodes_of(content@)));
                }
                Ok(keybinds)
            },
        }
    }
}

impl Source for NiriSource {
    type Item = Keybind;

    fn name(&self) -> (r: &'static str)
        ensures
            r@ == "niri"@,
    {
        "niri"
    }

    fn discover(&self) -> (r: Result<Vec<Keybind>, DiscoveryError>)
        ensures
            r is Ok <==> kdl_parses(self.config@),
            r matches Err(e) ==> e matches DiscoveryError::ConfigParse(_),
            r matches Ok(v) ==> v.deep_view() == spec_doc_keybinds(parsed_nodes_of(self.config@)),
    {
        self.parse_config(self.config.as_str())
    }
}

/// Reads one candidate node of the binds section: its name decoded as
/// the key combination, its entries as the optional properties, and its
/// child action nodes as the action string. The error is the node's
/// unresolvable modifier token.
fn parse_keybind_node(n: &kdl::KdlNode) -> (r: Result<Keybind, DiscoveryError>)
    ensures
        match r {
            Ok(kb) => spec_node_keybind(*n) == Some(kb@),
            Err(_) => spec_node_keybind(*n) is None,
        },
{
    let name = node_name(n);
    let (mods, key) = match NiriSource::parse_key_combination(name.as_str()) {
        Ok(p) => p,
        Err(e) => {
            return Err(e);
        },
    };
    let ghost entries = node_entries_of(*n);
    let mut description: Option<String> = None;
    let mut repeat: Option<bool> = None;
    let mut cooldown_ms: Option<u64> = None;
    let mut allow_when_locked: Option<bool> = None;
    let mut allow_inhibiting: Option<bool> = None;
    let count = node_entry_count(n);
    let mut i: usize = 0;
    proof {
        assert(entries.take(0) =~= Seq::<NodeEntryView>::empty());
    }
    while i < count
        invariant
            i <= count,
            count == entries.len(),
            entries == node_entries_of(*n),
            spec_props(entries.take(i as int)) == (PropsView {
                description: description.deep_view(),
                repeat,
                cooldown_ms,
                allow_when_locked,
                allow_inhibiting,
            }),
        decreases count - i,
    {
        let e = node_entry(n, i);
        if let Some(nm) = &e.name {
            if str_eq(nm.as_str(), "hotkey-overlay-title") {
                description = match &e.value {
                    ConfigValue::Str(s) => Some(s.clone()),
                    _ => None,
                };
            } else if str_eq(nm.as_str(), "repeat") {
                repeat = match &e.value {
                    ConfigValue::Bool(b) => Some(*b),
                    _ => None,
                };
            } else if str_eq(nm.as_str(), "cooldown-ms") {
                cooldown_ms = match &e.value {
                    ConfigValue::Int(v) => {
                        if *v >= 0 && *v <= u64::MAX as i128 {
                            Some(*v as u64)
                        } else {
                            None
                        }
                    },
                    _ => None,
                };
            } else if str_eq(nm.as_str(), "allow-when-locked") {
                allow_when_locked = match &e.value {
                    ConfigValue::Bool(b) => Some(*b),
                    _ => None,
                };
            } else if str_eq(nm.as_str(), "allow-inhibiting") {
                allow_inhibiting = match &e.value {
                    ConfigValue::Bool(b) => Some(*b),
                    _ => None,
                };
            }
        }
        proof {
            assert(entries.take(i + 1).drop_last() =~= entries.take(i as int));
            assert(entries.take(i + 1).last() == entries[i as int]);
        }
        i += 1;
    }
    proof {
        assert(entries.take(count as int) =~= entries);
    }
    let action = match node_children(n) {
        None => String::from_str("unknown"),
        Some(children_doc) => {
            let ghost cs = node_children_of(*n)->0;
            let bcount = doc_node_count(children_doc);
            let mut parts: Vec<String> = Vec::new();
            let mut j: usize = 0;
            proof {
                assert(cs.take(0) =~= Seq::<kdl::KdlNode>::empty());
            }
            while j < bcount
                invariant
                    j <= bcount,
                    bcount == cs.len(),
                    cs == node_children_of(*n)->0,
                    doc_nodes_of(*children_doc) == cs,
                    parts.deep_view() == spec_action_list(cs.take(j as int)),
                decreases bcount - j,
            {
                let c = doc_node(children_doc, j);
                let ghost prev = parts.deep_view();
                parts.push(format_action(c));
                proof {
                    assert(cs.take(j + 1).drop_last() =~= cs.take(j as int));
                    assert(cs.take(j + 1).last() == cs[j as int]);
                    assert(parts.deep_view() =~= prev.push(
                        spec_action_node_text(
                            node_name_of(cs[j as int]),
                            node_entries_of(cs[j as int]),
                        ),
                    ));
                }
                j += 1;
            }
            proof {
                assert(cs.take(bcount as int) =~= cs);
            }
            join_strings(&parts, ", ")
        },
    };
    let kb = Keybind {
        modifiers: mods,
        key,
        action,
        description,
        program: String::from_str("niri"),
        repeat,
        cooldown_ms,
        allow_when_locked,
        allow_inhibiting,
    };
    proof {
        assert(spec_node_keybind(*n) == Some(kb@));
    }
    Ok(kb)
}

/// Extracts every keybind the parsed document describes: for each
/// top-level `binds` node with a child block, each candidate child that
/// decodes, in order.
pub fn extract_keybinds(doc: &kdl::KdlDocument) -> (r: Vec<Keybind>)
    ensures
        r.deep_view() == spec_doc_keybinds(doc_nodes_of(*doc)),
{
    let ghost nodes = doc_nodes_of(*doc);
    let count = doc_node_count(doc);
    let mut out: Vec<Keybind> = Vec::new();
    let mut i: usize = 0;
    proof {
        assert(nodes.take(0) =~= Seq::<kdl::KdlNode>::empty());
    }
    while i < count
        invariant
            i <= count,
            count == nodes.len(),
            nodes == doc_nodes_of(*doc),
            out.deep_view() == spec_doc_keybinds(nodes.take(i as int)),
        decreases count - i,
    {
        let n = doc_node(doc, i);
        let name = node_name(n);
        let mut handled = false;
        if str_eq(name.as_str(), "binds") {
            if let Some(children_doc) = node_children(n) {
                handled = true;
                let ghost cs = node_children_of(nodes[i as int])->0;
                let bcount = doc_node_count(children_doc);
                let mut j: usize = 0;
                proof {
                    assert(cs.take(0) =~= Seq::<kdl::KdlNode>::empty());
                    assert(out.deep_view() =~= spec_doc_keybinds(nodes.take(i as int))
                        + spec_binds_keybinds(cs.take(0)));
                }
                while j < bcount
                    invariant
                        j <= bcount,
                        bcount == cs.len(),
                        i < nodes.len(),
                        nodes == doc_nodes_of(*doc),
                        cs == node_children_of(nodes[i as int])->0,
                        doc_nodes_of(*children_doc) == cs,
                        out.deep_view() == spec_doc_keybinds(nodes.take(i as int))
                            + spec_binds_keybinds(cs.take(j as int)),
                    decreases bcount - j,
                {
                    let b = doc_node(children_doc, j);
                    let bname = node_name(b);
                    let ghost prev = out.deep_view();
                    if is_bind_candidate(bname.as_str()) {
                        match parse_keybind_node(b) {
                            Ok(kb) => {
                                out.push(kb);
                                proof {
                                    assert(out.deep_view() =~= prev.push(kb@));
                                }
                            },
                            Err(_) => {},
                        }
                    }
                    proof {
                        assert(cs.take(j + 1).drop_last() =~= cs.take(j as int));
                        assert(cs.take(j + 1).last() == cs[j as int]);
                        assert(out.deep_view() =~= spec_doc_keybinds(nodes.take(i as int))
                            + spec_binds_keybinds(cs.take(j + 1)));
                    }
                    j += 1;
                }
                proof {
                    assert(cs.take(bcount as int) =~= cs);
                    assert(nodes.take(i + 1).drop_last() =~= nodes.take(i as int));
                    assert(nodes.take(i + 1).last() == nodes[i as int]);
                    assert(out.deep_view() =~= spec_doc_keybinds(nodes.take(i + 1)));
                }
            }
        }
        if !handled {
            proof {
                assert(nodes.take(i + 1).drop_last() =~= nodes.take(i as int));
                assert(nodes.take(i + 1).last() == nodes[i as int]);
                assert(out.deep_view() =~= spec_doc_keybinds(nodes.take(i + 1)));
            }
        }
        i += 1;
    }
    proof {
        assert(nodes.take(count as int) =~= nodes);
    }
    out
}

/// The binds children contribute independently: extraction distributes
/// over concatenation.
pub proof fn lemma_binds_keybinds_concat(a: Seq<kdl::KdlNode>, b: Seq<kdl::KdlNode>)
    ensures
        spec_binds_keybinds(a + b) == spec_binds_keybinds(a) + spec_binds_keybinds(b),
    decreases b.len(),
{
    if b.len() == 0 {
        assert(a + b =~= a);
        assert(spec_binds_keybinds(a) + spec_binds_keybinds(b) =~= spec_binds_keybinds(a));
    } else {
        lemma_binds_keybinds_concat(a, b.drop_last());
        assert((a + b).drop_last() =~= a + b.drop_last());
        assert((a + b).last() == b.last());
        assert(spec_binds_keybinds(a + b) =~= spec_binds_keybinds(a) + spec_binds_keybinds(b));
    }
}

proof fn lemma_binds_node_removed(cs: Seq<kdl::KdlNode>, k: int)
    requires
        0 <= k < cs.len(),
        !spec_bind_candidate(node_name_of(cs[k])) || spec_node_keybind(cs[k]) is None,
    ensures
        spec_binds_keybinds(cs) == spec_binds_keybinds(cs.remove(k)),
{
    let a = cs.take(k);
    let mid = seq![cs[k]];
    let rest = cs.skip(k + 1);
    assert(cs =~= a + (mid + rest));
    lemma_binds_keybinds_concat(a, mid + rest);
    lemma_binds_keybinds_concat(mid, rest);
    assert(mid.drop_last() =~= Seq::<kdl::KdlNode>::empty());
    assert(spec_binds_keybinds(Seq::<kdl::KdlNode>::empty()) =~= Seq::<KeybindView>::empty());
    assert(mid.last() == cs[k]);
    assert(spec_binds_keybinds(mid) =~= Seq::<KeybindView>::empty());
    assert(cs.remove(k) =~= a + rest);
    lemma_binds_keybinds_concat(a, rest);
    assert(spec_binds_keybinds(cs) =~= spec_binds_keybinds(cs.remove(k)));
}

/// A binds child whose name starts with a lowercase letter and holds no
/// `+` is excluded: the extraction is as if that node were not there,
/// and the siblings still contribute.
pub proof fn lemma_non_candidate_excluded(cs: Seq<kdl::KdlNode>, k: int)
    requires
        0 <= k < cs.len(),
        !spec_contains_char(node_name_of(cs[k]), '+'),
        node_name_of(cs[k]).len() > 0,
        is_lower_char(node_name_of(cs[k])[0]),
    ensures
        spec_binds_keybinds(cs) == spec_binds_keybinds(cs.remove(k)),
{
    lemma_binds_node_removed(cs, k);
}

/// An unknown modifier token in one binds child drops only that child:
/// the extraction is as if that node were not there, and the siblings
/// still contribute.
pub proof fn lemma_unknown_modifier_drops_node_alone(cs: Seq<kdl::KdlNode>, k: int)
    requires
        0 <= k < cs.len(),
        spec_niri_decode(node_name_of(cs[k])) is Err,
    ensures
        spec_binds_keybinds(cs) == spec_binds_keybinds(cs.remove(k)),
{
    lemma_binds_node_removed(cs, k);
}

/// A cooldown value outside the representable range leaves the cooldown
/// absent: the entry is discarded, it never fails the node.
pub proof fn lemma_cooldown_out_of_range(p: PropsView, e: NodeEntryView)
    requires
        e.name == Some("cooldown-ms"@),
        e.value matches ConfigValueView::Int(v) && !(0 <= v <= u64::MAX as int),
    ensures
        spec_apply_entry(p, e).cooldown_ms is None,
{
    reveal_strlit("hotkey-overlay-title");
    reveal_strlit("repeat");
    reveal_strlit("cooldown-ms");
    assert("cooldown-ms"@.len() == 11);
    assert("hotkey-overlay-title"@.len() == 20);
    assert("repeat"@.len() == 6);
}

} // verus!
