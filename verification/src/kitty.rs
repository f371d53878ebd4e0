//! The runtime-introspection backend's decoding: the terminal's resolved
//! shortcut table arrives as plain records (a human-readable key
//! combination and an action label), and every record is decoded into the
//! keybind model. Any unresolvable modifier token aborts the whole batch;
//! there are no partial results.
//!
//! The combination grammar here is distinct from the declarative source's:
//! a trailing `++` means the key is a literal `+`; a `>` marks a multi-key
//! chord whose full notation is kept in the key; modifier tokens resolve
//! case-insensitively through this backend's own alias table.
use vstd::prelude::*;
use vstd::string::StrSliceExecFns;
use vstd::string::StringExecFns;

use crate::error::DiscoveryError;
use crate::keybind::{Keybind, KeybindView, Modifier};
use crate::text::{spec_contains_char, spec_split, find_char, split_char, str_eq};

verus! {

/// What `str::to_lowercase` returns: a function of the characters alone.
pub uninterp spec fn lower_of(s: Seq<char>) -> Seq<char>;

/// Relies on str::to_lowercase: the result depends on the characters
/// alone, and an empty string stays empty.
#[verifier::external_body]
fn lowercase(s: &str) -> (r: String)
    ensures
        r@ == lower_of(s@),
        s@.len() == 0 ==> r@.len() == 0,
{
    s.to_lowercase()
}

/// What `str::replace` returns: every occurrence of `from` replaced by
/// `to`, a function of the arguments alone.
pub uninterp spec fn replace_of(s: Seq<char>, from: Seq<char>, to: Seq<char>) -> Seq<char>;

/// Relies on str::replace: replaces every occurrence of `from` with `to`;
/// the result depends on the arguments alone.
#[verifier::external_body]
fn replace_str(s: &str, from: &str, to: &str) -> (r: String)
    ensures
        r@ == replace_of(s@, from@, to@),
{
    s.replace(from, to)
}

/// The runtime source's modifier table: case-insensitive, with this
/// backend's aliases, including its own placeholder token for the
/// user-remappable primary modifier.
pub open spec fn spec_kitty_modifier(seg: Seq<char>) -> Option<Modifier> {
    let lower = lower_of(seg);
    if lower == "ctrl"@ || lower == "control"@ {
        Some(Modifier::Ctrl)
    } else if lower == "shift"@ {
        Some(Modifier::Shift)
    } else if lower == "alt"@ || lower == "opt"@ || lower == "option"@ {
        Some(Modifier::Alt)
    } else if lower == "super"@ || lower == "cmd"@ || lower == "command"@ {
        Some(Modifier::Super)
    } else if lower == "kitty_mod"@ {
        Some(Modifier::Mod)
    } else {
        None
    }
}

/// Resolves every segment through the table; the first unresolvable
/// segment is the error.
pub open spec fn spec_kitty_mods(segs: Seq<Seq<char>>) -> Result<Seq<Modifier>, Seq<char>>
    decreases segs.len(),
{
    if segs.len() == 0 {
        Ok(Seq::<Modifier>::empty())
    } else {
        match spec_kitty_modifier(segs[0]) {
            None => Err(segs[0]),
            Some(m) => match spec_kitty_mods(segs.drop_first()) {
                Ok(rest) => Ok(seq![m] + rest),
                Err(t) => Err(t),
            },
        }
    }
}

pub proof fn lemma_kitty_mods_ok(segs: Seq<Seq<char>>)
    requires
        forall|j: int| 0 <= j < segs.len() ==> spec_kitty_modifier(#[trigger] segs[j]) is Some,
    ensures
        spec_kitty_mods(segs) is Ok,
        spec_kitty_mods(segs)->Ok_0.len() == segs.len(),
        forall|j: int|
            0 <= j < segs.len() ==> #[trigger] spec_kitty_mods(segs)->Ok_0[j]
                == spec_kitty_modifier(segs[j])->0,
    decreases segs.len(),
{
    if segs.len() > 0 {
        lemma_kitty_mods_ok(segs.drop_first());
    }
}

pub proof fn lemma_kitty_mods_err(segs: Seq<Seq<char>>, i: int)
    requires
        0 <= i < segs.len(),
        forall|j: int| 0 <= j < i ==> spec_kitty_modifier(#[trigger] segs[j]) is Some,
        spec_kitty_modifier(segs[i]) is None,
    ensures
        spec_kitty_mods(segs) == Result::<Seq<Modifier>, Seq<char>>::Err(segs[i]),
    decreases i,
{
    if i > 0 {
        lemma_kitty_mods_err(segs.drop_first(), i - 1);
    }
}

/// The first index of `c` in `s`, or `s.len()` when absent.
pub open spec fn spec_index_of(s: Seq<char>, c: char) -> int
    decreases s.len(),
{
    if s.len() == 0 {
        0
    } else if s[0] == c {
        0
    } else {
        1 + spec_index_of(s.drop_first(), c)
    }
}

pub proof fn lemma_index_of(s: Seq<char>, c: char, i: int)
    requires
        0 <= i < s.len(),
        s[i] == c,
        forall|j: int| 0 <= j < i ==> s[j] != c,
    ensures
        spec_index_of(s, c) == i,
    decreases i,
{
    if i > 0 {
        lemma_index_of(s.drop_first(), c, i - 1);
    }
}

/// The runtime source's key-combination reading, three shapes in priority
/// order: a trailing `++` makes the key a literal `+`; a `>` marks a
/// chord, whose notation past the first `>` is kept in the key verbatim;
/// otherwise every segment but the last is a modifier.
pub open spec fn spec_kitty_decode(combo: Seq<char>) -> Result<(Seq<Modifier>, Seq<char>), Seq<
    char,
>> {
    if combo.len() >= 2 && combo[combo.len() - 1] == '+' && combo[combo.len() - 2] == '+' {
        let mod_part = combo.take(combo.len() - 2);
        if mod_part.len() == 0 {
            Ok((Seq::<Modifier>::empty(), "+"@))
        } else {
            match spec_kitty_mods(spec_split(mod_part, '+')) {
                Ok(mods) => Ok((mods, "+"@)),
                Err(t) => Err(t),
            }
        }
    } else if spec_contains_char(combo, '>') {
        let g = spec_index_of(combo, '>');
        let parts = spec_split(combo.take(g), '+');
        match spec_kitty_mods(parts.drop_last()) {
            Ok(mods) => Ok((mods, parts.last() + ">"@ + combo.skip(g + 1))),
            Err(t) => Err(t),
        }
    } else {
        let parts = spec_split(combo, '+');
        match spec_kitty_mods(parts.drop_last()) {
            Ok(mods) => Ok((mods, parts.last())),
            Err(t) => Err(t),
        }
    }
}

/// One raw shortcut handed over by the runtime adapter: the
/// human-readable key combination (with the backend's placeholder token
/// for the primary modifier still in place) and the action label.
#[derive(Debug, Clone, PartialEq, Eq)]
pub struct ShortcutRecord {
    pub key_repr: String,
    pub action: String,
}

/// The mathematical image of a `ShortcutRecord`.
pub struct ShortcutRecordView {
    pub key_repr: Seq<char>,
    pub action: Seq<char>,
}

impl View for ShortcutRecord {
    type V = ShortcutRecordView;

    open spec fn view(&self) -> ShortcutRecordView {
        ShortcutRecordView { key_repr: self.key_repr@, action: self.action@ }
    }
}

impl DeepView for ShortcutRecord {
    type V = ShortcutRecordView;

    open spec fn deep_view(&self) -> ShortcutRecordView {
        self.view()
    }
}

/// The keybind one record yields: its combination, with the placeholder
/// token expanded, decoded through the runtime grammar; the error is the
/// offending modifier token. This backend carries no description and no
/// behavioral flags.
pub open spec fn spec_record_keybind(r: ShortcutRecordView, expanded: Seq<char>) -> Result<
    KeybindView,
    Seq<char>,
> {
    match spec_kitty_decode(replace_of(r.key_repr, "kitty_mod"@, expanded)) {
        Ok(p) => Ok(
            KeybindView {
                modifiers: p.0,
                key: p.1,
                action: r.action,
                description: None,
                program: "kitty"@,
                repeat: None,
                cooldown_ms: None,
                allow_when_locked: None,
                allow_inhibiting: None,
            },
        ),
        Err(t) => Err(t),
    }
}

/// The keybinds a whole batch of records yields, or the first offending
/// modifier token. An error anywhere yields no partial results.
pub open spec fn spec_records_keybinds(rs: Seq<ShortcutRecordView>, expanded: Seq<char>) -> Result<
    Seq<KeybindView>,
    Seq<char>,
>
    decreases rs.len(),
{
    if rs.len() == 0 {
        Ok(Seq::<KeybindView>::empty())
    } else {
        match spec_record_keybind(rs[0], expanded) {
            Err(t) => Err(t),
            Ok(kv) => match spec_records_keybinds(rs.drop_first(), expanded) {
                Ok(rest) => Ok(seq![kv] + rest),
                Err(t) => Err(t),
            },
        }
    }
}

pub proof fn lemma_records_ok(rs: Seq<ShortcutRecordView>, expanded: Seq<char>)
    requires
        forall|j: int|
            0 <= j < rs.len() ==> spec_record_keybind(#[trigger] rs[j], expanded) is Ok,
    ensures
        spec_records_keybinds(rs, expanded) is Ok,
        spec_records_keybinds(rs, expanded)->Ok_0.len() == rs.len(),
        forall|j: int|
            0 <= j < rs.len() ==> #[trigger] spec_records_keybinds(rs, expanded)->Ok_0[j]
                == spec_record_keybind(rs[j], expanded)->Ok_0,
    decreases rs.len(),
{
    if rs.len() > 0 {
        lemma_records_ok(rs.drop_first(), expanded);
    }
}

pub proof fn lemma_records_err(rs: Seq<ShortcutRecordView>, expanded: Seq<char>, i: int)
    requires
        0 <= i < rs.len(),
        forall|j: int| 0 <= j < i ==> spec_record_keybind(#[trigger] rs[j], expanded) is Ok,
        spec_record_keybind(rs[i], expanded) is Err,
    ensures
        spec_records_keybinds(rs, expanded) == Result::<Seq<KeybindView>, Seq<char>>::Err(
            spec_record_keybind(rs[i], expanded)->Err_0,
        ),
    decreases i,
{
    if i > 0 {
        lemma_records_err(rs.drop_first(), expanded, i - 1);
    }
}

/// One record whose combination does not decode aborts the whole batch,
/// wherever in the batch it stands: the result is an error, never a
/// shorter list.
pub proof fn lemma_unresolvable_aborts(rs: Seq<ShortcutRecordView>, expanded: Seq<char>, i: int)
    requires
        0 <= i < rs.len(),
        spec_record_keybind(rs[i], expanded) is Err,
    ensures
        spec_records_keybinds(rs, expanded) is Err,
    decreases i,
{
    if i > 0 && spec_record_keybind(rs[0], expanded) is Ok {
        lemma_unresolvable_aborts(rs.drop_first(), expanded, i - 1);
    }
}

/// A combination ending in `++` decodes to the literal key `+`, with
/// everything before the trailing `++` read as the modifier segments.
pub proof fn lemma_trailing_plus_plus(combo: Seq<char>)
    requires
        combo.len() >= 2,
        combo[combo.len() - 1] == '+',
        combo[combo.len() - 2] == '+',
        spec_kitty_decode(combo) is Ok,
    ensures
        spec_kitty_decode(combo)->Ok_0.1 == "+"@,
        combo.len() == 2 ==> spec_kitty_decode(combo)->Ok_0.0 == Seq::<Modifier>::empty(),
        combo.len() > 2 ==> spec_kitty_mods(spec_split(combo.take(combo.len() - 2), '+')) == Ok::<
            Seq<Modifier>,
            Seq<char>,
        >(spec_kitty_decode(combo)->Ok_0.0),
{
}

/// Resolves the runtime alias for one modifier token, ignoring case.
pub fn parse_modifier(name: &str) -> (r: Result<Modifier, DiscoveryError>)
    ensures
        match r {
            Ok(m) => spec_kitty_modifier(name@) == Some(m),
            Err(e) => spec_kitty_modifier(name@) is None && (e
                matches DiscoveryError::UnknownModifier(t) && t@ == name@),
        },
{
    let lower = lowercase(name);
    let l = lower.as_str();
    if str_eq(l, "ctrl") || str_eq(l, "control") {
        Ok(Modifier::Ctrl)
    } else if str_eq(l, "shift") {
        Ok(Modifier::Shift)
    } else if str_eq(l, "alt") || str_eq(l, "opt") || str_eq(l, "option") {
        Ok(Modifier::Alt)
    } else if str_eq(l, "super") || str_eq(l, "cmd") || str_eq(l, "command") {
        Ok(Modifier::Super)
    } else if str_eq(l, "kitty_mod") {
        Ok(Modifier::Mod)
    } else {
        Err(DiscoveryError::UnknownModifier(String::from_str(name)))
    }
}

/// Resolves the first `n` pieces as modifier tokens, failing on the first
/// one the table does not know.
fn resolve_modifiers(parts: &Vec<String>, n: usize) -> (r: Result<Vec<Modifier>, DiscoveryError>)
    requires
        n <= parts@.len(),
    ensures
        ({
            let d = spec_kitty_mods(parts.deep_view().take(n as int));
            match r {
                Ok(mods) => d is Ok && mods@ == d->Ok_0,
                Err(e) => d is Err && (e matches DiscoveryError::UnknownModifier(t) && t@
                    == d->Err_0),
            }
        }),
{
    let ghost segs = parts.deep_view().take(n as int);
    let mut mods: Vec<Modifier> = Vec::new();
    let mut i: usize = 0;
    while i < n
        invariant
            i <= n <= parts@.len(),
            segs == parts.deep_view().take(n as int),
            segs.len() == n,
            forall|j: int| 0 <= j < i ==> spec_kitty_modifier(#[trigger] segs[j]) is Some,
            mods@.len() == i,
            forall|j: int| 0 <= j < i ==> #[trigger] mods@[j] == spec_kitty_modifier(segs[j])->0,
        decreases n - i,
    {
        match parse_modifier(parts[i].as_str()) {
            Ok(m) => mods.push(m),
            Err(e) => {
                proof {
                    lemma_kitty_mods_err(segs, i as int);
                }
                return Err(e);
            },
        }
        i += 1;
    }
    proof {
        lemma_kitty_mods_ok(segs);
        assert(mods@ =~= spec_kitty_mods(segs)->Ok_0);
    }
    Ok(mods)
}

/// Decodes one combination of the runtime source's surface syntax.
pub fn parse_key_combination(combo: &str) -> (r: Result<(Vec<Modifier>, String), DiscoveryError>)
    ensures
        ({
            let d = spec_kitty_decode(combo@);
            match r {
                Ok(p) => d is Ok && p.0@ == d->Ok_0.0 && p.1@ == d->Ok_0.1,
                Err(e) => d is Err && (e matches DiscoveryError::UnknownModifier(t) && t@
                    == d->Err_0),
            }
        }),
{
    let len = combo.unicode_len();
    if len >= 2 && combo.get_char(len - 1) == '+' && combo.get_char(len - 2) == '+' {
        if len == 2 {
            proof {
                assert(combo@.take(combo@.len() - 2) =~= Seq::<char>::empty());
            }
            Ok((Vec::new(), String::from_str("+")))
        } else {
            let mod_part = combo.substring_char(0, len - 2);
            proof {
                assert(mod_part@.len() > 0);
            }
            let parts = split_char(mod_part, '+');
            proof {
                assert(parts.deep_view().take(parts@.len() as int) =~= parts.deep_view());
            }
            match resolve_modifiers(&parts, parts.len()) {
                Ok(mods) => Ok((mods, String::from_str("+"))),
                Err(e) => Err(e),
            }
        }
    } else {
        match find_char(combo, '>') {
            Some(g) => {
                proof {
                    lemma_index_of(combo@, '>', g as int);
                }
                let first = combo.substring_char(0, g);
                let rest = combo.substring_char(g + 1, len);
                let parts = split_char(first, '+');
                let n = parts.len() - 1;
                match resolve_modifiers(&parts, n) {
                    Ok(mods) => {
                        let mut key = parts[n].clone();
                        key.append(">");
                        key.append(rest);
                        proof {
                            let ps = spec_split(combo@.take(g as int), '+');
                            assert(parts.deep_view().take(n as int) =~= ps.drop_last());
                            assert(key@ == ps.last() + ">"@ + combo@.skip(g + 1));
                        }
                        Ok((mods, key))
                    },
                    Err(e) => {
                        proof {
                            let ps = spec_split(combo@.take(g as int), '+');
                            assert(parts.deep_view().take(n as int) =~= ps.drop_last());
                        }
                        Err(e)
                    },
                }
            },
            None => {
                let parts = split_char(combo, '+');
                let n = parts.len() - 1;
                match resolve_modifiers(&parts, n) {
                    Ok(mods) => {
                        proof {
                            assert(parts.deep_view().take(n as int) =~= spec_split(
                                combo@,
                                '+',
                            ).drop_last());
                        }
                        Ok((mods, parts[n].clone()))
                    },
                    Err(e) => {
                        proof {
                            assert(parts.deep_view().take(n as int) =~= spec_split(
                                combo@,
                                '+',
                            ).drop_last());
                        }
                        Err(e)
                    },
                }
            },
        }
    }
}

/// Decodes a whole batch of raw shortcut records into keybinds, replacing
/// the backend's placeholder token with the expanded primary-modifier
/// names first. One unresolvable modifier token anywhere aborts the whole
/// call; no partial results are returned.
pub fn keybinds_from_records(records: &Vec<ShortcutRecord>, kitty_mod_expanded: &str) -> (r: Result<
    Vec<Keybind>,
    DiscoveryError,
>)
    ensures
        ({
            let d = spec_records_keybinds(records.deep_view(), kitty_mod_expanded@);
            match r {
                Ok(v) => d is Ok && v.deep_view() == d->Ok_0,
                Err(e) => d is Err && (e matches DiscoveryError::UnknownModifier(t) && t@
                    == d->Err_0),
            }
        }),
{
    let ghost rs = records.deep_view();
    let mut out: Vec<Keybind> = Vec::new();
    let mut i: usize = 0;
    while i < records.len()
        invariant
            i <= records.len(),
            rs == records.deep_view(),
            rs.len() == records.len(),
            forall|j: int| 0 <= j < i ==> spec_record_keybind(#[trigger] rs[j], kitty_mod_expanded@) is Ok,
            out.deep_view().len() == i,
            forall|j: int|
                0 <= j < i ==> #[trigger] out.deep_view()[j] == spec_record_keybind(
                    rs[j],
                    kitty_mod_expanded@,
                )->Ok_0,
        decreases records.len() - i,
    {
        let rec = &records[i];
        let expanded_repr = replace_str(rec.key_repr.as_str(), "kitty_mod", kitty_mod_expanded);
        match parse_key_combination(expanded_repr.as_str()) {
            Ok(p) => {
                let kb = Keybind {
                    modifiers: p.0,
                    key: p.1,
                    action: rec.action.clone(),
                    description: None,
                    program: String::from_str("kitty"),
                    repeat: None,
                    cooldown_ms: None,
                    allow_when_locked: None,
                    allow_inhibiting: None,
                };
                proof {
                    assert(kb@ == spec_record_keybind(rs[i as int], kitty_mod_expanded@)->Ok_0);
                }
                let ghost prev = out.deep_view();
                out.push(kb);
                proof {
                    assert(out.deep_view() =~= prev.push(kb@));
                }
            },
            Err(e) => {
                proof {
                    lemma_records_err(rs, kitty_mod_expanded@, i as int);
                }
                return Err(e);
            },
        }
        i += 1;
    }
    proof {
        lemma_records_ok(rs, kitty_mod_expanded@);
        assert(out.deep_view() =~= spec_records_keybinds(rs, kitty_mod_expanded@)->Ok_0);
    }
    Ok(out)
}

} // verus!
