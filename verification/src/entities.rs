//! The entity layer: assets, transactions, and release instructions.

use vstd::prelude::*;

verus! {

/// A named fungible quantity. Two assets are the same exactly when both the
/// name and the quantity agree.
#[derive(Debug)]
pub struct Asset {
    pub name: String,
    pub quantity: u64,
}

/// Mathematical view of an [`Asset`].
pub struct AssetV {
    pub name: Seq<char>,
    pub quantity: u64,
}

impl View for Asset {
    type V = AssetV;

    open spec fn view(&self) -> AssetV {
        AssetV { name: self.name@, quantity: self.quantity }
    }
}

impl Asset {
    /// Build an asset from a name and a quantity.
    pub fn new(name: String, quantity: u64) -> (r: Asset)
        ensures
            r@ == (AssetV { name: name@, quantity }),
    {
        Asset { name, quantity }
    }
}

impl Clone for Asset {
    fn clone(&self) -> (r: Self)
        ensures
            r == *self,
    {
        Asset { name: self.name.clone(), quantity: self.quantity }
    }
}

/// One conditional transfer obligation: `sender` owes `receiver` exactly
/// `asset`; `satisfied` records whether the required deposit is currently
/// escrowed.
#[derive(Debug)]
pub struct Transaction {
    pub sender: String,
    pub receiver: String,
    pub asset: Asset,
    pub satisfied: bool,
}

/// Mathematical view of a [`Transaction`].
pub struct TransactionV {
    pub sender: Seq<char>,
    pub receiver: Seq<char>,
    pub asset: AssetV,
    pub satisfied: bool,
}

impl View for Transaction {
    type V = TransactionV;

    open spec fn view(&self) -> TransactionV {
        TransactionV {
            sender: self.sender@,
            receiver: self.receiver@,
            asset: self.asset@,
            satisfied: self.satisfied,
        }
    }
}

impl Transaction {
    /// A fresh transaction always starts unsatisfied.
    pub fn new(sender: String, receiver: String, asset: Asset) -> (r: Transaction)
        ensures
            r@ == (TransactionV {
                sender: sender@,
                receiver: receiver@,
                asset: asset@,
                satisfied: false,
            }),
    {
        Transaction { sender, receiver, asset, satisfied: false }
    }

    /// Flip the satisfied flag.
    pub fn toggle_satisfied(&mut self)
        ensures
            final(self)@ == (TransactionV { satisfied: !old(self)@.satisfied, ..old(self)@ }),
    {
        self.satisfied = !self.satisfied;
    }
}

impl Clone for Transaction {
    fn clone(&self) -> (r: Self)
        ensures
            r == *self,
    {
        Transaction {
            sender: self.sender.clone(),
            receiver: self.receiver.clone(),
            asset: self.asset.clone(),
            satisfied: self.satisfied,
        }
    }
}

impl PartialEq for Transaction {
    /// Equality is structural over all four fields, the embedded asset's
    /// name and quantity included.
    fn eq(&self, other: &Self) -> (r: bool) {
        self.sender == other.sender && self.receiver == other.receiver
            && self.asset.name == other.asset.name
            && self.asset.quantity == other.asset.quantity && self.satisfied == other.satisfied
    }
}

impl vstd::std_specs::cmp::PartialEqSpecImpl for Transaction {
    open spec fn obeys_eq_spec() -> bool {
        true
    }

    open spec fn eq_spec(&self, other: &Self) -> bool {
        self@ == other@
    }
}

/// One settlement instruction handed to the environment on execution:
/// release `asset` to `receiver`.
pub struct Release {
    pub asset: Asset,
    pub receiver: String,
}

/// Mathematical view of a [`Release`].
pub struct ReleaseV {
    pub asset: AssetV,
    pub receiver: Seq<char>,
}

impl View for Release {
    type V = ReleaseV;

    open spec fn view(&self) -> ReleaseV {
        ReleaseV { asset: self.asset@, receiver: self.receiver@ }
    }
}

} // verus!
