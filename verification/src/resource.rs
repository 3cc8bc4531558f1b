//! The decision half of resource fetching.  The fetches themselves are
//! HTTP calls the runtime performs; what the library owns is the fallback
//! rule: a failed fetch either fails the session, or, with the default
//! fallback on, resolves to a canned resource.

use vstd::prelude::*;
use crate::data::{GameMap, Player, spec_player_name};

verus! {

/// Map and player fetching against a REST backend.
pub struct ResourceManager {
    base_url: String,
    default_fallback: bool,
}

impl ResourceManager {
    pub closed spec fn spec_fallback(self) -> bool {
        self.default_fallback
    }

    pub closed spec fn spec_base_url(self) -> Seq<char> {
        self.base_url@
    }

    /// A resource manager over a REST backend at the given base address.
    pub fn new_rest(base_url: String, default_fallback: bool) -> (r: ResourceManager)
        ensures
            r.spec_fallback() == default_fallback,
            r.spec_base_url() == base_url@,
    {
        ResourceManager { base_url, default_fallback }
    }

    pub fn base_url(&self) -> (r: &String)
        ensures
            r@ == self.spec_base_url(),
    {
        &self.base_url
    }

    /// Resolves the outcome of a map fetch: the fetched map if there is
    /// one, else the canned default map iff the fallback is on.
    pub fn resolve_map_fetch(&self, map: u128, fetched: Option<GameMap>) -> (r: Option<GameMap>)
        ensures
            match fetched {
                Some(m) => r == Some(m),
                None => if self.spec_fallback() {
                    r matches Some(d) && d.wf() && d.spec_id() == map && d.spec_row_size() == 10
                        && d.spec_number_row() == 10
                } else {
                    r is None
                },
            },
    {
        match fetched {
            Some(m) => Some(m),
            None => {
                if self.default_fallback {
                    Some(GameMap::default_map(map))
                } else {
                    None
                }
            },
        }
    }

    /// Resolves the outcome of a player fetch: the fetched record if there
    /// is one, else the canned default player iff the fallback is on.
    pub fn resolve_player_fetch(&self, player: u128, fetched: Option<Player>) -> (r: Option<
        Player,
    >)
        ensures
            match fetched {
                Some(p) => r == Some(p),
                None => if self.spec_fallback() {
                    r matches Some(d) && d.id == player && d.current_pv == 100 && d.name@
                        == spec_player_name(player) && d.position.x == 0 && d.position.y == 0
                } else {
                    r is None
                },
            },
    {
        match fetched {
            Some(p) => Some(p),
            None => {
                if self.default_fallback {
                    Some(Player::default_player(player))
                } else {
                    None
                }
            },
        }
    }
}

} // verus!
