//! Saved team setups and the cooldowns on syncing and exporting them.

use std::collections::HashMap;
use vstd::prelude::*;

verus! {

/// Minutes between two syncs of one user's setup.
pub const SRTOOLS_SYNC_COOLDOWN_MINUTES: u64 = 30;

/// Minutes between two exports of one user's setup.
pub const SRTOOLS_EXPORT_COOLDOWN_MINUTES: u64 = 15;

#[derive(Clone, Debug)]
pub struct SRToolsData {
    pub avatars: HashMap<String, Avatar>,
    pub relics: Vec<Relic>,
    pub lightcones: Vec<Lightcone>,
    pub battle_config: BattleConfig,
}

#[derive(Clone, Debug)]
pub struct Avatar {
    pub avatar_id: u32,
    pub data: AvatarData,
    pub level: u32,
    pub promotion: u32,
    pub sp_max: u32,
    pub sp_value: u32,
    pub techniques: Vec<u32>,
    pub owner_uid: u32,
}

#[derive(Clone, Debug)]
pub struct AvatarData {
    pub rank: u32,
    pub skills: HashMap<String, u32>,
}

#[derive(Clone, Debug)]
pub struct BattleConfig {
    pub battle_type: String,
    pub cycle_count: u32,
    pub stage_id: u32,
    pub path_resonance_id: u32,
    pub monsters: Vec<Vec<Monster>>,
}

#[derive(Clone, Copy, Debug)]
pub struct Monster {
    pub amount: u32,
    pub level: u32,
    pub monster_id: u32,
}

#[derive(Clone, Copy, Debug)]
pub struct Lightcone {
    pub equip_avatar: u32,
    pub internal_uid: u32,
    pub item_id: u32,
    pub level: u32,
    pub promotion: u32,
    pub rank: u32,
}

#[derive(Clone, Debug)]
pub struct Relic {
    pub equip_avatar: u32,
    pub internal_uid: u32,
    pub level: u32,
    pub main_affix_id: u32,
    pub relic_id: u32,
    pub relic_set_id: u32,
    pub sub_affixes: Vec<SubAffix>,
}

#[derive(Clone, Copy, Debug)]
pub struct SubAffix {
    pub count: u32,
    pub step: u32,
    pub sub_affix_id: u32,
}

/// One user's saved setup.
#[derive(Clone, Debug)]
pub struct SRToolsDoc {
    pub uid: u32,
    pub username: String,
    pub data: Option<SRToolsData>,
}

/// When one user may next sync or export, in minutes since the Unix epoch,
/// stored in 32 bits.
#[derive(Clone, Debug)]
pub struct SRToolsMetaDoc {
    pub username: String,
    pub next_sync_allowed: u32,
    pub next_export_allowed: u32,
}

/// `minutes` as it is stored: the low 32 bits.
pub open spec fn stored_minutes(minutes: nat) -> u32 {
    (minutes % 0x1_0000_0000) as u32
}

fn minutes_after(now_secs: u64, cooldown: u64) -> (t: u32)
    requires
        cooldown <= 60,
    ensures
        t == stored_minutes((now_secs / 60 + cooldown) as nat),
{
    let m = now_secs / 60 + cooldown;
    (m % 0x1_0000_0000) as u32
}

impl SRToolsMetaDoc {
    /// The stored minute from which the next sync is allowed, after one at
    /// `now_secs` seconds since the Unix epoch.
    pub fn next_sync_time(now_secs: u64) -> (t: u32)
        ensures
            t == stored_minutes((now_secs / 60 + SRTOOLS_SYNC_COOLDOWN_MINUTES) as nat),
    {
        minutes_after(now_secs, SRTOOLS_SYNC_COOLDOWN_MINUTES)
    }

    /// The stored minute from which the next export is allowed, after one at
    /// `now_secs` seconds since the Unix epoch.
    pub fn next_export_time(now_secs: u64) -> (t: u32)
        ensures
            t == stored_minutes((now_secs / 60 + SRTOOLS_EXPORT_COOLDOWN_MINUTES) as nat),
    {
        minutes_after(now_secs, SRTOOLS_EXPORT_COOLDOWN_MINUTES)
    }

    /// The minutes of sync cooldown left at minute `now_minutes`; `None` when
    /// a sync is allowed.
    pub fn sync_cooldown_left(&self, now_minutes: u32) -> (r: Option<u32>)
        ensures
            r == if self.next_sync_allowed > now_minutes {
                Some((self.next_sync_allowed - now_minutes) as u32)
            } else {
                None::<u32>
            },
    {
        if self.next_sync_allowed > now_minutes {
            Some(self.next_sync_allowed - now_minutes)
        } else {
            None
        }
    }
}

} // verus!
