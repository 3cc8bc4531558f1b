//! The short-lived token store used once at connection time.

use vstd::prelude::*;
use crate::messages::bytes_eq;

verus! {

/// An authentication token as the client presents it: raw bytes.
#[derive(Clone, Debug)]
pub struct AuthenticationToken(pub Vec<u8>);

/// Whether the table holds an entry for this character.
pub open spec fn spec_has_token(s: Seq<(u128, AuthenticationToken)>, id: u128) -> bool {
    exists|i: int| #![trigger s[i]] 0 <= i < s.len() && s[i].0 == id
}

/// The position of this character's entry; meaningful when there is one
/// and the keys are unique.
pub open spec fn spec_token_index(s: Seq<(u128, AuthenticationToken)>, id: u128) -> int {
    choose|i: int| 0 <= i < s.len() && s[i].0 == id
}

/// Character id to token, filled by the management interface and consumed
/// when the client authenticates.
pub struct AuthenticationManager {
    map: Vec<(u128, AuthenticationToken)>,
}

impl AuthenticationManager {
    /// The entries, in insertion order.
    pub closed spec fn view(self) -> Seq<(u128, AuthenticationToken)> {
        self.map@
    }

    /// At most one entry per character.
    pub open spec fn wf(self) -> bool {
        forall|i: int, j: int|
            #![trigger self@[i], self@[j]]
            0 <= i < j < self@.len() ==> self@[i].0 != self@[j].0
    }

    pub fn new() -> (r: AuthenticationManager)
        ensures
            r.wf(),
            r@ == Seq::<(u128, AuthenticationToken)>::empty(),
    {
        AuthenticationManager { map: Vec::new() }
    }

    fn index_of(&self, player: u128) -> (r: Option<usize>)
        ensures
            match r {
                Some(i) => i < self@.len() && self@[i as int].0 == player,
                None => !spec_has_token(self@, player),
            },
    {
        let mut i: usize = 0;
        while i < self.map.len()
            invariant
                i <= self.map.len(),
                forall|j: int| 0 <= j < i ==> (#[trigger] self@[j]).0 != player,
            decreases self.map.len() - i,
        {
            if self.map[i].0 == player {
                return Some(i);
            }
            i = i + 1;
        }
        proof {
            assert forall|j: int| 0 <= j < self@.len() implies (#[trigger] self@[j]).0
                != player by {}
        }
        None
    }

    /// Registers a token for a character, replacing any earlier one.
    pub fn add_token(&mut self, player: u128, token: AuthenticationToken)
        requires
            old(self).wf(),
        ensures
            final(self).wf(),
            spec_has_token(final(self)@, player),
            if spec_has_token(old(self)@, player) {
                final(self)@ == old(self)@.update(
                    spec_token_index(old(self)@, player),
                    (player, token),
                )
            } else {
                final(self)@ == old(self)@.push((player, token))
            },
    {
        let ghost pre = self@;
        match self.index_of(player) {
            Some(i) => {
                let slot = &mut self.map[i];
                *slot = (player, token);
                proof {
                    assert(self@ =~= pre.update(i as int, (player, token)));
                    assert(spec_token_index(pre, player) == i as int) by {
                        let w = spec_token_index(pre, player);
                        assert(0 <= w < pre.len() && pre[w].0 == player);
                    }
                    assert(self@[i as int].0 == player);
                }
            },
            None => {
                self.map.push((player, token));
                proof {
                    assert(self@ =~= pre.push((player, token)));
                    assert(self@[pre.len() as int].0 == player);
                }
            },
        }
    }

    /// Verifies that the character presented the registered token.  On a
    /// match the entry is consumed; on a mismatch it is retained so the
    /// coordinator may retry; without an entry the check fails.
    pub fn verify_token(&mut self, player: u128, token: AuthenticationToken) -> (r: bool)
        requires
            old(self).wf(),
        ensures
            final(self).wf(),
            !spec_has_token(old(self)@, player) ==> r == false && final(self)@ == old(self)@,
            spec_has_token(old(self)@, player) ==> {
                let i = spec_token_index(old(self)@, player);
                if old(self)@[i].1.0@ == token.0@ {
                    r == true && final(self)@ == old(self)@.remove(i)
                } else {
                    r == false && final(self)@ == old(self)@
                }
            },
    {
        let ghost pre = self@;
        match self.index_of(player) {
            Some(i) => {
                proof {
                    assert(spec_token_index(pre, player) == i as int) by {
                        let w = spec_token_index(pre, player);
                        assert(0 <= w < pre.len() && pre[w].0 == player);
                    }
                }
                let matches_token = bytes_eq(&self.map[i].1.0, &token.0);
                if matches_token {
                    let _ = self.map.remove(i);
                    proof {
                        pre.remove_ensures(i as int);
                        assert forall|x: int, y: int|
                            #![trigger self@[x], self@[y]]
                            0 <= x < y < self@.len() implies self@[x].0 != self@[y].0 by {
                            let sx = if x < i as int {
                                x
                            } else {
                                x + 1
                            };
                            let sy = if y < i as int {
                                y
                            } else {
                                y + 1
                            };
                            assert(self@[x] == pre[sx] && self@[y] == pre[sy]);
                        }
                    }
                    true
                } else {
                    false
                }
            },
            None => false,
        }
    }
}

} // verus!
