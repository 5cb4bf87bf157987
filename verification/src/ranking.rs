//! Ranking of tokens by the signed net volume they contribute.

use vstd::prelude::*;
use crate::fixed::Fixed18;
use crate::types::{SgErc20, TokenView};

verus! {

/// The net volume that the vaults of one token contribute, in the
/// denomination under which it was computed.
pub ghost struct Contribution {
    pub token: TokenView,
    pub net_vol: nat,
    pub is_neg: bool,
}

impl Contribution {
    /// The place of the contribution in the order of signed numbers: negative
    /// before positive, a negative zero before a positive zero, and within one
    /// sign by magnitude, a larger negative magnitude first.
    pub open spec fn rank(self) -> int {
        if self.is_neg {
            -(self.net_vol as int) - 1
        } else {
            self.net_vol as int
        }
    }
}

/// How one contribution stands to another in rank.
#[derive(Clone, Copy, Debug, PartialEq, Eq, Structural)]
pub enum Standing {
    Less,
    Equal,
    Greater,
}

/// A token with the net volume that its vaults contribute.
#[derive(Debug, PartialEq, Eq, Hash)]
pub struct TokenDenominationVol {
    pub token: SgErc20,
    pub net_vol: Fixed18,
    pub is_neg: bool,
}

impl View for TokenDenominationVol {
    type V = Contribution;

    open spec fn view(&self) -> Contribution {
        Contribution { token: self.token@, net_vol: self.net_vol@, is_neg: self.is_neg }
    }
}

impl Clone for TokenDenominationVol {
    fn clone(&self) -> (r: Self)
        ensures
            r@ == self@,
    {
        TokenDenominationVol {
            token: self.token.clone(),
            net_vol: self.net_vol,
            is_neg: self.is_neg,
        }
    }
}

/// The contributions that a list of entries stands for.
pub open spec fn contributions(s: Seq<TokenDenominationVol>) -> Seq<Contribution> {
    s.map_values(|e: TokenDenominationVol| e@)
}

impl TokenDenominationVol {
    /// Compares by sign first, negative below positive, then by magnitude,
    /// where a larger negative magnitude is the smaller number. The token
    /// plays no part.
    pub fn compare(&self, other: &TokenDenominationVol) -> (r: Standing)
        ensures
            r == Standing::Less <==> self@.rank() < other@.rank(),
            r == Standing::Equal <==> self@.rank() == other@.rank(),
            r == Standing::Greater <==> self@.rank() > other@.rank(),
    {
        if self.is_neg == other.is_neg {
            if other.net_vol.lt(&self.net_vol) {
                if self.is_neg {
                    Standing::Less
                } else {
                    Standing::Greater
                }
            } else if self.net_vol.lt(&other.net_vol) {
                if self.is_neg {
                    Standing::Greater
                } else {
                    Standing::Less
                }
            } else {
                Standing::Equal
            }
        } else if self.is_neg {
            Standing::Less
        } else {
            Standing::Greater
        }
    }

    /// Whether `self` ranks strictly below `other`.
    pub fn lt(&self, other: &TokenDenominationVol) -> (r: bool)
        ensures
            r == (self@.rank() < other@.rank()),
    {
        matches!(self.compare(other), Standing::Less)
    }

    /// Whether `self` ranks at most as high as `other`.
    pub fn le(&self, other: &TokenDenominationVol) -> (r: bool)
        ensures
            r == (self@.rank() <= other@.rank()),
    {
        !matches!(self.compare(other), Standing::Greater)
    }

    /// Whether `self` ranks strictly above `other`.
    pub fn gt(&self, other: &TokenDenominationVol) -> (r: bool)
        ensures
            r == (self@.rank() > other@.rank()),
    {
        matches!(self.compare(other), Standing::Greater)
    }

    /// Whether `self` ranks at least as high as `other`.
    pub fn ge(&self, other: &TokenDenominationVol) -> (r: bool)
        ensures
            r == (self@.rank() >= other@.rank()),
    {
        !matches!(self.compare(other), Standing::Less)
    }

    /// The lower of the two, `self` where they rank equal.
    pub fn min(self, other: TokenDenominationVol) -> (r: TokenDenominationVol)
        ensures
            r == if self@.rank() <= other@.rank() { self } else { other },
    {
        match self.compare(&other) {
            Standing::Greater => other,
            Standing::Less => self,
            Standing::Equal => self,
        }
    }

    /// The higher of the two, `self` where they rank equal.
    pub fn max(self, other: TokenDenominationVol) -> (r: TokenDenominationVol)
        ensures
            r == if self@.rank() >= other@.rank() { self } else { other },
    {
        match self.compare(&other) {
            Standing::Greater => self,
            Standing::Less => other,
            Standing::Equal => self,
        }
    }
}

} // verus!
