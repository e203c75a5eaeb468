//! Territory sovereignty: guild claims over world plots with upkeep expiry, and permission
//! bitmasks for the owning guild, its allies and the public.
use vstd::prelude::*;

use crate::slots::{first_index, lemma_first_index_is, lemma_first_index_none};

verus! {

/// Permission to enter the plot.
pub const TERRITORY_PERM_ENTER: u32 = 1;

/// Permission to build on the plot.
pub const TERRITORY_PERM_BUILD: u32 = 2;

/// Permission to open containers on the plot.
pub const TERRITORY_PERM_ACCESS_CONTAINERS: u32 = 4;

/// Permission to harvest resources on the plot.
pub const TERRITORY_PERM_HARVEST: u32 = 8;

/// Permission to use portals on the plot.
pub const TERRITORY_PERM_USE_PORTALS: u32 = 16;

/// Permission to trigger defensive guards.
pub const TERRITORY_PERM_PVP_GUARD: u32 = 32;

/// Errors raised by territory plot claims and permissions.
#[derive(Debug, Clone, Copy, PartialEq, Eq, Structural)]
pub enum TerritoryError {
    /// Plot identifier is unknown.
    PlotNotFound,
    /// Plot already has an active owner.
    PlotAlreadyClaimed,
    /// Upkeep duration must be positive.
    InvalidUpkeepDuration,
    /// Caller lacks the required plot permission.
    PermissionDenied,
}

/// A claimable plot of a world sector with its access control lists.
#[derive(Debug, Clone, Copy, PartialEq, Eq, Structural)]
pub struct TerritoryPlot {
    /// Plot identifier.
    pub plot_id: u64,
    /// Sector X.
    pub sector_x: i32,
    /// Sector Z.
    pub sector_z: i32,
    /// Owning guild, if claimed.
    pub owning_guild_id: Option<u64>,
    /// Tick at which the claim lapses unless refreshed.
    pub upkeep_expires_tick: u64,
    /// Permissions of the public.
    pub public_permissions: u32,
    /// Permissions of allied guilds' members.
    pub alliance_permissions: u32,
    /// Permissions of the owning guild's members.
    pub guild_permissions: u32,
}

/// The claim of `p` is in force at `tick`.
pub open spec fn claim_active(p: TerritoryPlot, tick: u64) -> bool {
    p.owning_guild_id is Some && tick < p.upkeep_expires_tick
}

/// Permission mask that applies to an actor of `actor_guild_id`.
pub open spec fn applicable_mask(p: TerritoryPlot, actor_guild_id: Option<u64>, is_allied: bool) -> u32 {
    if actor_guild_id == p.owning_guild_id {
        p.guild_permissions
    } else if is_allied {
        p.alliance_permissions
    } else {
        p.public_permissions
    }
}

/// Whether an actor holds `permission` on `p` at `tick`: anyone may do anything on an
/// unclaimed or lapsed plot; otherwise the applicable mask must contain every requested bit.
pub open spec fn permitted(
    p: TerritoryPlot,
    actor_guild_id: Option<u64>,
    is_allied: bool,
    permission: u32,
    tick: u64,
) -> bool {
    !claim_active(p, tick) || (applicable_mask(p, actor_guild_id, is_allied) & permission)
        == permission
}

impl TerritoryPlot {
    /// An unclaimed plot: the public may enter, allies may enter and use portals, the owning
    /// guild may do anything.
    pub fn new(plot_id: u64, sector_x: i32, sector_z: i32) -> (p: Self)
        ensures
            p == (TerritoryPlot {
                plot_id,
                sector_x,
                sector_z,
                owning_guild_id: None,
                upkeep_expires_tick: 0,
                public_permissions: TERRITORY_PERM_ENTER,
                alliance_permissions: TERRITORY_PERM_ENTER | TERRITORY_PERM_USE_PORTALS,
                guild_permissions: u32::MAX,
            }),
    {
        TerritoryPlot {
            plot_id,
            sector_x,
            sector_z,
            owning_guild_id: None,
            upkeep_expires_tick: 0,
            public_permissions: TERRITORY_PERM_ENTER,
            alliance_permissions: TERRITORY_PERM_ENTER | TERRITORY_PERM_USE_PORTALS,
            guild_permissions: u32::MAX,
        }
    }

    /// Whether the claim is in force at `current_tick`.
    pub fn is_claim_active(&self, current_tick: u64) -> (b: bool)
        ensures
            b == claim_active(*self, current_tick),
    {
        self.owning_guild_id.is_some() && current_tick < self.upkeep_expires_tick
    }

    /// Whether an actor of `actor_guild_id` (allied with the owner or not) holds every bit of
    /// `permission` at `current_tick`.
    pub fn has_permission(
        &self,
        actor_guild_id: Option<u64>,
        is_allied: bool,
        permission: u32,
        current_tick: u64,
    ) -> (b: bool)
        ensures
            b == permitted(*self, actor_guild_id, is_allied, permission, current_tick),
    {
        if !self.is_claim_active(current_tick) {
            return true;
        }
        let owner = match self.owning_guild_id {
            Some(g) => g,
            None => {
                return true;
            },
        };
        let same_guild = match actor_guild_id {
            Some(g) => g == owner,
            None => false,
        };
        let allowed_mask = if same_guild {
            self.guild_permissions
        } else if is_allied {
            self.alliance_permissions
        } else {
            self.public_permissions
        };
        (allowed_mask & permission) == permission
    }
}

/// Plot predicate: the plot with identifier `id`.
pub open spec fn plot_with_id(id: u64) -> spec_fn(TerritoryPlot) -> bool {
    |p: TerritoryPlot| p.plot_id == id
}

/// `a + b` saturating at `u64::MAX`.
pub open spec fn add_sat(a: u64, b: u64) -> u64 {
    if a + b > u64::MAX {
        u64::MAX
    } else {
        (a + b) as u64
    }
}

/// Registry of territory plots.
#[derive(Debug)]
pub struct TerritoryManager {
    plots: Vec<TerritoryPlot>,
}

impl TerritoryManager {
    /// Registered plots; identifiers are distinct.
    pub closed spec fn spec_plots(&self) -> Seq<TerritoryPlot> {
        self.plots@
    }

    /// The plot registered under `id`, if any.
    pub open spec fn plot(&self, id: u64) -> Option<TerritoryPlot> {
        let k = first_index(self.spec_plots(), plot_with_id(id));
        if k >= 0 {
            Some(self.spec_plots()[k])
        } else {
            None
        }
    }

    /// No plots.
    pub fn new() -> (m: Self)
        ensures
            m.spec_plots() == Seq::<TerritoryPlot>::empty(),
    {
        TerritoryManager { plots: Vec::new() }
    }

    fn find(&self, id: u64) -> (k: Option<usize>)
        ensures
            match k {
                Some(i) => i == first_index(self.spec_plots(), plot_with_id(id)) && i
                    < self.spec_plots().len(),
                None => first_index(self.spec_plots(), plot_with_id(id)) == -1,
            },
    {
        let ghost s = self.plots@;
        let ghost p = plot_with_id(id);
        let mut i: usize = 0;
        while i < self.plots.len()
            invariant
                i <= s.len(),
                s == self.plots@,
                p == plot_with_id(id),
                forall|j: int| 0 <= j < i ==> !p(#[trigger] s[j]),
            decreases s.len() - i,
        {
            if self.plots[i].plot_id == id {
                proof {
                    lemma_first_index_is(s, p, i as int);
                }
                return Some(i);
            }
            i = i + 1;
        }
        proof {
            lemma_first_index_none(s, p);
        }
        None
    }

    /// Registers `plot`, replacing any plot with the same identifier.
    pub fn register_plot(&mut self, plot: TerritoryPlot)
        ensures
            final(self).plot(plot.plot_id) == Some(plot),
            forall|id: u64| id != plot.plot_id ==> #[trigger] final(self).plot(id) == old(self).plot(id),
    {
        let ghost s = self.plots@;
        match self.find(plot.plot_id) {
            Some(k) => {
                self.plots.set(k, plot);
                proof {
                    let t = self.plots@;
                    let q = plot_with_id(plot.plot_id);
                    crate::slots::lemma_first_index(s, q);
                    assert forall|j: int| 0 <= j < k implies !q(#[trigger] t[j]) by {
                        assert(t[j] == s[j]);
                    }
                    lemma_first_index_is(t, q, k as int);
                    assert forall|id: u64| id != plot.plot_id implies #[trigger] self.plot(id) == old(
                        self,
                    ).plot(id) by {
                        same_lookup_after_update(s, k as int, plot, id);
                        crate::slots::lemma_first_index(s, plot_with_id(id));
                        let f = first_index(s, plot_with_id(id));
                        if f >= 0 {
                            assert(f != k);
                            assert(t[f] == s[f]);
                        }
                    }
                }
            },
            None => {
                self.plots.push(plot);
                proof {
                    let t = self.plots@;
                    assert forall|j: int| 0 <= j < s.len() implies !plot_with_id(plot.plot_id)(
                        #[trigger] t[j],
                    ) by {
                        crate::slots::lemma_first_index(s, plot_with_id(plot.plot_id));
                        assert(t[j] == s[j]);
                    }
                    lemma_first_index_is(t, plot_with_id(plot.plot_id), s.len() as int);
                    assert forall|id: u64| id != plot.plot_id implies #[trigger] self.plot(id) == old(
                        self,
                    ).plot(id) by {
                        same_lookup_after_push(s, plot, id);
                        crate::slots::lemma_first_index(s, plot_with_id(id));
                        let f = first_index(s, plot_with_id(id));
                        if f >= 0 {
                            assert(t[f] == s[f]);
                        }
                    }
                }
            },
        }
    }

    /// The plot registered under `plot_id`.
    pub fn get_plot(&self, plot_id: u64) -> (r: Option<&TerritoryPlot>)
        ensures
            match r {
                Some(p) => self.plot(plot_id) == Some(*p),
                None => self.plot(plot_id) is None,
            },
    {
        match self.find(plot_id) {
            Some(k) => Some(&self.plots[k]),
            None => None,
        }
    }

    /// Mutable access to the plot registered under `plot_id`.
    pub fn get_plot_mut(&mut self, plot_id: u64) -> (r: Option<&mut TerritoryPlot>)
        ensures
            ({
                let k = first_index(old(self).spec_plots(), plot_with_id(plot_id));
                match r {
                    Some(p) => k >= 0 && *p == old(self).spec_plots()[k] && final(self).spec_plots()
                        == old(self).spec_plots().update(k, *final(p)),
                    None => k < 0 && final(self).spec_plots() == old(self).spec_plots(),
                }
            }),
    {
        match self.find(plot_id) {
            Some(k) => Some(&mut self.plots[k]),
            None => None,
        }
    }

    /// Claims plot `plot_id` for `guild_id` until `current_tick + duration_ticks` (saturating).
    /// A zero duration is `InvalidUpkeepDuration`, an unknown plot `PlotNotFound`, and a plot
    /// held by another guild whose claim is in force `PlotAlreadyClaimed`.
    pub fn claim_plot(&mut self, plot_id: u64, guild_id: u64, duration_ticks: u64, current_tick: u64) -> (r:
        Result<(), TerritoryError>)
        ensures
            duration_ticks == 0 ==> r == Err::<(), TerritoryError>(TerritoryError::InvalidUpkeepDuration)
                && final(self).spec_plots() == old(self).spec_plots(),
            duration_ticks > 0 ==> match old(self).plot(plot_id) {
                None => r == Err::<(), TerritoryError>(TerritoryError::PlotNotFound)
                    && final(self).spec_plots() == old(self).spec_plots(),
                Some(p) => if claim_active(p, current_tick) && p.owning_guild_id != Some(guild_id) {
                    r == Err::<(), TerritoryError>(TerritoryError::PlotAlreadyClaimed)
                        && final(self).spec_plots() == old(self).spec_plots()
                } else {
                    r is Ok && final(self).spec_plots() == old(self).spec_plots().update(
                        first_index(old(self).spec_plots(), plot_with_id(plot_id)),
                        TerritoryPlot {
                            owning_guild_id: Some(guild_id),
                            upkeep_expires_tick: add_sat(current_tick, duration_ticks),
                            ..p
                        },
                    )
                },
            },
    {
        if duration_ticks == 0 {
            return Err(TerritoryError::InvalidUpkeepDuration);
        }
        let k = match self.find(plot_id) {
            Some(k) => k,
            None => {
                return Err(TerritoryError::PlotNotFound);
            },
        };
        let plot = self.plots[k];
        let same_owner = match plot.owning_guild_id {
            Some(g) => g == guild_id,
            None => false,
        };
        if plot.is_claim_active(current_tick) && !same_owner {
            return Err(TerritoryError::PlotAlreadyClaimed);
        }
        self.plots.set(
            k,
            TerritoryPlot {
                owning_guild_id: Some(guild_id),
                upkeep_expires_tick: current_tick.saturating_add(duration_ticks),
                ..plot
            },
        );
        Ok(())
    }

    /// Extends the claim of `guild_id` on `plot_id` by `additional_ticks` from the later of its
    /// current expiry and `current_tick` (saturating), returning the new expiry. An unknown plot
    /// is `PlotNotFound` and a plot not owned by the guild `PermissionDenied`.
    pub fn refresh_upkeep(&mut self, plot_id: u64, guild_id: u64, additional_ticks: u64, current_tick: u64) -> (r:
        Result<u64, TerritoryError>)
        ensures
            match old(self).plot(plot_id) {
                None => r == Err::<u64, TerritoryError>(TerritoryError::PlotNotFound)
                    && final(self).spec_plots() == old(self).spec_plots(),
                Some(p) => if p.owning_guild_id != Some(guild_id) {
                    r == Err::<u64, TerritoryError>(TerritoryError::PermissionDenied)
                        && final(self).spec_plots() == old(self).spec_plots()
                } else {
                    let base = if p.upkeep_expires_tick > current_tick {
                        p.upkeep_expires_tick
                    } else {
                        current_tick
                    };
                    &&& r == Ok::<u64, TerritoryError>(add_sat(base, additional_ticks))
                    &&& final(self).spec_plots() == old(self).spec_plots().update(
                        first_index(old(self).spec_plots(), plot_with_id(plot_id)),
                        TerritoryPlot { upkeep_expires_tick: add_sat(base, additional_ticks), ..p },
                    )
                },
            },
    {
        let k = match self.find(plot_id) {
            Some(k) => k,
            None => {
                return Err(TerritoryError::PlotNotFound);
            },
        };
        let plot = self.plots[k];
        let owned = match plot.owning_guild_id {
            Some(g) => g == guild_id,
            None => false,
        };
        if !owned {
            return Err(TerritoryError::PermissionDenied);
        }
        let base = if plot.upkeep_expires_tick > current_tick {
            plot.upkeep_expires_tick
        } else {
            current_tick
        };
        let expires = base.saturating_add(additional_ticks);
        self.plots.set(k, TerritoryPlot { upkeep_expires_tick: expires, ..plot });
        Ok(expires)
    }

    /// Clears the owner and expiry of plot `plot_id`; an unknown plot is `PlotNotFound`.
    pub fn relinquish_claim(&mut self, plot_id: u64) -> (r: Result<(), TerritoryError>)
        ensures
            match old(self).plot(plot_id) {
                None => r == Err::<(), TerritoryError>(TerritoryError::PlotNotFound)
                    && final(self).spec_plots() == old(self).spec_plots(),
                Some(p) => r is Ok && final(self).spec_plots() == old(self).spec_plots().update(
                    first_index(old(self).spec_plots(), plot_with_id(plot_id)),
                    TerritoryPlot { owning_guild_id: None, upkeep_expires_tick: 0, ..p },
                ),
            },
    {
        let k = match self.find(plot_id) {
            Some(k) => k,
            None => {
                return Err(TerritoryError::PlotNotFound);
            },
        };
        let plot = self.plots[k];
        self.plots.set(k, TerritoryPlot { owning_guild_id: None, upkeep_expires_tick: 0, ..plot });
        Ok(())
    }
}

proof fn same_lookup_after_update(s: Seq<TerritoryPlot>, k: int, plot: TerritoryPlot, id: u64)
    requires
        0 <= k < s.len(),
        s[k].plot_id == plot.plot_id,
        id != plot.plot_id,
    ensures
        first_index(s.update(k, plot), plot_with_id(id)) == first_index(s, plot_with_id(id)),
    decreases s.len(),
{
    let t = s.update(k, plot);
    let p = plot_with_id(id);
    crate::slots::lemma_first_index(s, p);
    let f = first_index(s, p);
    assert forall|j: int| 0 <= j < s.len() implies p(#[trigger] t[j]) == p(s[j]) by {}
    if f >= 0 {
        lemma_first_index_is(t, p, f);
    } else {
        lemma_first_index_none(t, p);
    }
}

proof fn same_lookup_after_push(s: Seq<TerritoryPlot>, plot: TerritoryPlot, id: u64)
    requires
        id != plot.plot_id,
    ensures
        first_index(s.push(plot), plot_with_id(id)) == first_index(s, plot_with_id(id)),
{
    let t = s.push(plot);
    let p = plot_with_id(id);
    crate::slots::lemma_first_index(s, p);
    let f = first_index(s, p);
    assert forall|j: int| 0 <= j < s.len() implies p(#[trigger] t[j]) == p(s[j]) by {}
    if f >= 0 {
        lemma_first_index_is(t, p, f);
    } else {
        assert(!p(t[s.len() as int]));
        lemma_first_index_none(t, p);
    }
}

/// A successful claim puts the guild in charge: until the new expiry the claim is in force and
/// the owning guild holds every permission, while an outsider holds only what the public mask
/// grants.
pub proof fn lemma_claim_grants_owner(p: TerritoryPlot, guild_id: u64, duration: u64, tick: u64, t: u64, perm: u32)
    requires
        duration > 0,
        tick <= t < add_sat(tick, duration),
        p.guild_permissions == u32::MAX,
    ensures
        ({
            let c = TerritoryPlot {
                owning_guild_id: Some(guild_id),
                upkeep_expires_tick: add_sat(tick, duration),
                ..p
            };
            &&& claim_active(c, t)
            &&& permitted(c, Some(guild_id), false, perm, t)
            &&& permitted(c, None, false, perm, t) == ((p.public_permissions & perm) == perm)
        }),
{
    assert(u32::MAX & perm == perm) by (bit_vector);
}

/// A lapsed or unclaimed plot restricts nobody.
pub proof fn lemma_lapsed_claim_permits_all(
    p: TerritoryPlot,
    actor: Option<u64>,
    is_allied: bool,
    perm: u32,
    tick: u64,
)
    requires
        !claim_active(p, tick),
    ensures
        permitted(p, actor, is_allied, perm, tick),
{
}

} // verus!
