//! The canonical keybind model: a closed set of modifier keys, the
//! `Keybind` entity, and its one-line text rendering.
use vstd::prelude::*;
use vstd::string::StringExecFns;

use crate::text::{dec_u64, join_strings, spec_dec_nat, spec_join};

verus! {

/// A modifier key, identified by variant alone.
#[derive(Debug, Clone, Copy, PartialEq, Eq, Hash, Structural)]
pub enum Modifier {
    Mod,
    Super,
    Alt,
    Ctrl,
    Shift,
    IsoLevel3Shift,
    IsoLevel5Shift,
}

/// The canonical display name of a modifier.
pub open spec fn spec_modifier_name(m: Modifier) -> Seq<char> {
    match m {
        Modifier::Mod => "Mod"@,
        Modifier::Super => "Super"@,
        Modifier::Alt => "Alt"@,
        Modifier::Ctrl => "Ctrl"@,
        Modifier::Shift => "Shift"@,
        Modifier::IsoLevel3Shift => "ISO_Level3_Shift"@,
        Modifier::IsoLevel5Shift => "ISO_Level5_Shift"@,
    }
}

impl Modifier {
    /// The canonical display name, as rendered in a key combination.
    pub fn name(&self) -> (r: &'static str)
        ensures
            r@ == spec_modifier_name(*self),
    {
        match self {
            Modifier::Mod => "Mod",
            Modifier::Super => "Super",
            Modifier::Alt => "Alt",
            Modifier::Ctrl => "Ctrl",
            Modifier::Shift => "Shift",
            Modifier::IsoLevel3Shift => "ISO_Level3_Shift",
            Modifier::IsoLevel5Shift => "ISO_Level5_Shift",
        }
    }
}

/// One discovered keyboard shortcut, fully populated at discovery time
/// and immutable afterwards.
#[derive(Debug, Clone, PartialEq, Eq)]
pub struct Keybind {
    /// Modifier keys, in the order the source gave them.
    pub modifiers: Vec<Modifier>,
    /// The base key token, in the originating program's naming.
    pub key: String,
    /// Human-readable rendering of what the shortcut does.
    pub action: String,
    /// Optional human-supplied label; preferred over `action` in rendering.
    pub description: Option<String>,
    /// Name of the originating program.
    pub program: String,
    /// Whether the action fires on key repeat; rendered only when `Some(false)`.
    pub repeat: Option<bool>,
    /// Minimum milliseconds between repeated triggers; rendered when present.
    pub cooldown_ms: Option<u64>,
    /// Whether the action fires while the session is locked; rendered only
    /// when `Some(true)`.
    pub allow_when_locked: Option<bool>,
    /// Whether an inhibitor may suppress the action; rendered only when
    /// `Some(false)`.
    pub allow_inhibiting: Option<bool>,
}

/// The mathematical image of a `Keybind`.
pub struct KeybindView {
    pub modifiers: Seq<Modifier>,
    pub key: Seq<char>,
    pub action: Seq<char>,
    pub description: Option<Seq<char>>,
    pub program: Seq<char>,
    pub repeat: Option<bool>,
    pub cooldown_ms: Option<u64>,
    pub allow_when_locked: Option<bool>,
    pub allow_inhibiting: Option<bool>,
}

impl View for Keybind {
    type V = KeybindView;

    open spec fn view(&self) -> KeybindView {
        KeybindView {
            modifiers: self.modifiers@,
            key: self.key@,
            action: self.action@,
            description: self.description.deep_view(),
            program: self.program@,
            repeat: self.repeat,
            cooldown_ms: self.cooldown_ms,
            allow_when_locked: self.allow_when_locked,
            allow_inhibiting: self.allow_inhibiting,
        }
    }
}

impl DeepView for Keybind {
    type V = KeybindView;

    open spec fn deep_view(&self) -> KeybindView {
        self.view()
    }
}

/// The modifier part of a rendered combination: each modifier's canonical
/// name followed by `+`. Empty when there are no modifiers, so the key
/// never gets a leading `+`.
pub open spec fn spec_mods_prefix(mods: Seq<Modifier>) -> Seq<char>
    decreases mods.len(),
{
    if mods.len() == 0 {
        Seq::<char>::empty()
    } else {
        spec_mods_prefix(mods.drop_last()) + spec_modifier_name(mods.last()) + "+"@
    }
}

/// The flag annotations that apply to `v`, in the fixed order no-repeat,
/// cooldown, allow-locked, no-inhibit.
pub open spec fn spec_flag_parts(v: KeybindView) -> Seq<Seq<char>> {
    (if v.repeat == Some(false) {
        seq!["no-repeat"@]
    } else {
        Seq::<Seq<char>>::empty()
    }) + (if v.cooldown_ms is Some {
        seq!["cooldown="@ + spec_dec_nat(v.cooldown_ms->0 as nat) + "ms"@]
    } else {
        Seq::<Seq<char>>::empty()
    }) + (if v.allow_when_locked == Some(true) {
        seq!["allow-locked"@]
    } else {
        Seq::<Seq<char>>::empty()
    }) + (if v.allow_inhibiting == Some(false) {
        seq!["no-inhibit"@]
    } else {
        Seq::<Seq<char>>::empty()
    })
}

/// The parenthesized flag group, present exactly when some flag applies.
pub open spec fn spec_flag_group(v: KeybindView) -> Seq<char> {
    if spec_flag_parts(v).len() == 0 {
        Seq::<char>::empty()
    } else {
        " ("@ + spec_join(spec_flag_parts(v), ", "@) + ")"@
    }
}

/// The full one-line rendering of a keybind:
/// `[<mod>+...+]<key> - <description-or-action>[ (<flags>)] [<program>]`.
/// The description, when present, replaces the action in the rendering.
pub open spec fn spec_render(v: KeybindView) -> Seq<char> {
    spec_mods_prefix(v.modifiers) + v.key + " - "@ + (if v.description is Some {
        v.description->0
    } else {
        v.action
    }) + spec_flag_group(v) + " ["@ + v.program + "]"@
}

/// With no modifiers the rendering begins with the key itself: nothing,
/// in particular no `+`, stands before it.
pub proof fn lemma_render_no_leading_plus(v: KeybindView)
    requires
        v.modifiers.len() == 0,
    ensures
        spec_render(v).take(v.key.len() as int) == v.key,
{
    assert(spec_render(v).take(v.key.len() as int) =~= v.key);
}

/// A present description is what is rendered; the action plays no part
/// then. Two keybinds that differ only in their action render alike when
/// a description is present, so the rendering never shows both.
pub proof fn lemma_description_overrides_action(a: KeybindView, b: KeybindView)
    requires
        a.description is Some,
        b == (KeybindView { action: b.action, ..a }),
    ensures
        spec_render(a) == spec_render(b),
{
}

/// The flag annotation group is present exactly when at least one flag
/// condition holds; `spec_flag_parts` lists the parts in the fixed order
/// no-repeat, cooldown, allow-locked, no-inhibit.
pub proof fn lemma_flag_group_exactly_when(v: KeybindView)
    ensures
        (spec_flag_group(v).len() == 0) <==> (v.repeat != Some(false) && v.cooldown_ms is None
            && v.allow_when_locked != Some(true) && v.allow_inhibiting != Some(false)),
{
    reveal_strlit(" (");
    if spec_flag_parts(v).len() > 0 {
        assert(spec_flag_group(v).len() > 0);
    }
}

impl Keybind {
    /// Renders the keybind as its one-line textual form.
    pub fn render(&self) -> (r: String)
        ensures
            r@ == spec_render(self@),
    {
        let mut out = String::new();
        let mut i: usize = 0;
        proof {
            assert(self.modifiers@.take(0) =~= Seq::<Modifier>::empty());
        }
        while i < self.modifiers.len()
            invariant
                i <= self.modifiers.len(),
                out@ == spec_mods_prefix(self.modifiers@.take(i as int)),
            decreases self.modifiers.len() - i,
        {
            out.append(self.modifiers[i].name());
            out.append("+");
            proof {
                let mods = self.modifiers@;
                assert(mods.take(i + 1).drop_last() =~= mods.take(i as int));
                assert(mods.take(i + 1).last() == mods[i as int]);
            }
            i += 1;
        }
        proof {
            assert(self.modifiers@.take(self.modifiers@.len() as int) =~= self.modifiers@);
        }
        out.append(self.key.as_str());
        out.append(" - ");
        match &self.description {
            Some(d) => out.append(d.as_str()),
            None => out.append(self.action.as_str()),
        }
        let mut parts: Vec<String> = Vec::new();
        if let Some(false) = self.repeat {
            parts.push(String::from_str("no-repeat"));
        }
        if let Some(cooldown) = self.cooldown_ms {
            let mut p = String::from_str("cooldown=");
            let digits = dec_u64(cooldown);
            p.append(digits.as_str());
            p.append("ms");
            parts.push(p);
        }
        if let Some(true) = self.allow_when_locked {
            parts.push(String::from_str("allow-locked"));
        }
        if let Some(false) = self.allow_inhibiting {
            parts.push(String::from_str("no-inhibit"));
        }
        proof {
            assert(parts.deep_view() =~= spec_flag_parts(self@));
        }
        if parts.len() > 0 {
            out.append(" (");
            let joined = join_strings(&parts, ", ");
            out.append(joined.as_str());
            out.append(")");
        }
        out.append(" [");
        out.append(self.program.as_str());
        out.append("]");
        proof {
            assert(out@ =~= spec_render(self@));
        }
        out
    }
}

} // verus!
