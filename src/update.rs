use vstd::prelude::*;

verus! {

/// How often to look for a newer release.
#[derive(Debug, Clone, Copy, PartialEq, Eq, Structural)]
pub enum UpdateFrequency {
    Daily,
    Weekly,
    Never,
}

impl Default for UpdateFrequency {
    fn default() -> (r: Self)
        ensures
            r == UpdateFrequency::Daily,
    {
        UpdateFrequency::Daily
    }
}

/// Update settings; a field left `None` is not set.
#[derive(Debug, Clone, Copy, PartialEq, Eq, Structural)]
pub struct Update {
    pub check_frequency: Option<UpdateFrequency>,
    pub auto_update: Option<bool>,
}

impl Default for Update {
    fn default() -> (r: Self)
        ensures
            r == (Update { check_frequency: None, auto_update: None }),
    {
        Update { check_frequency: None, auto_update: None }
    }
}

/// `base` (or the empty settings, when there is none) with every field that
/// `other` sets taken from `other`.
pub open spec fn merged(base: Option<Update>, other: Update) -> Update {
    let b = match base {
        Some(u) => u,
        None => Update { check_frequency: None, auto_update: None },
    };
    Update {
        check_frequency: if other.check_frequency is Some {
            other.check_frequency
        } else {
            b.check_frequency
        },
        auto_update: if other.auto_update is Some {
            other.auto_update
        } else {
            b.auto_update
        },
    }
}

/// Merges `other` into `base`: the fields that `other` sets win, the others
/// keep their value; with no `other`, `base` is left as it is.
pub fn update_config(base: &mut Option<Update>, other: Option<Update>)
    ensures
        match other {
            None => *final(base) == *old(base),
            Some(o) => *final(base) == Some(merged(*old(base), o)),
        },
{
    if let Some(other) = other {
        let mut update = match base {
            Some(u) => *u,
            None => Update::default(),
        };
        if other.auto_update.is_some() {
            update.auto_update = other.auto_update;
        }
        if other.check_frequency.is_some() {
            update.check_frequency = other.check_frequency;
        }
        *base = Some(update);
    }
}

} // verus!
