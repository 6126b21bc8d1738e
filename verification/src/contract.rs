//! The escrow coordinator: a state machine over four collections (owners,
//! signatures, transactions, deposits) that gates editing, depositing and
//! settlement. Every operation validates first and mutates only on success;
//! no error path changes any state.

use vstd::prelude::*;
use crate::entities::Asset;
use crate::entities::AssetV;
use crate::entities::Release;
use crate::entities::ReleaseV;
use crate::entities::Transaction;
use crate::entities::TransactionV;
use crate::errors::EscrowError;
use crate::keymap::find_key;
use crate::keymap::has_key;
use crate::keymap::key_index;
use crate::keymap::keys_distinct;
use crate::keymap::lemma_map_of_dom_len;
use crate::keymap::lemma_map_of_empty;
use crate::keymap::lemma_map_of_entry;
use crate::keymap::lemma_map_of_push;
use crate::keymap::lemma_map_of_remove;
use crate::keymap::lemma_map_of_update;
use crate::keymap::lemma_pairs_view_push;
use crate::keymap::lemma_pairs_view_remove;
use crate::keymap::lemma_pairs_view_update;
use crate::keymap::map_of;
use crate::keymap::pairs_view;

verus! {

/// The views of a sequence of party names.
pub open spec fn names_view(s: Seq<String>) -> Seq<Seq<char>> {
    s.map_values(|x: String| x@)
}

/// Every transaction of the bundle carries a satisfied deposit.
pub open spec fn all_satisfied(m: Map<Seq<char>, TransactionV>) -> bool {
    forall|k: Seq<char>| #[trigger] m.dom().contains(k) ==> m[k].satisfied
}

/// The escrow coordinator. It exclusively owns its four collections; the
/// caller's identity is an explicit argument of every operation.
pub struct Contract {
    owners: Vec<String>,
    signatures: Vec<String>,
    transactions: Vec<(String, Transaction)>,
    assets: Vec<(String, Asset)>,
}

impl Contract {
    /// The owners, in the order given at construction.
    pub closed spec fn owners_seq(self) -> Seq<Seq<char>> {
        names_view(self.owners@)
    }

    /// The set of parties empowered to author and ratify.
    pub open spec fn owner_set(self) -> Set<Seq<char>> {
        self.owners_seq().to_set()
    }

    /// The owners that have signed, in signing order.
    pub closed spec fn sigs_seq(self) -> Seq<Seq<char>> {
        names_view(self.signatures@)
    }

    /// The set of owners that have ratified the current bundle.
    pub open spec fn sig_set(self) -> Set<Seq<char>> {
        self.sigs_seq().to_set()
    }

    /// The bundle as name/transaction pairs, in insertion order.
    pub closed spec fn txs(self) -> Seq<(Seq<char>, TransactionV)> {
        pairs_view(self.transactions@)
    }

    /// The bundle: transaction name to transaction.
    pub open spec fn tx_map(self) -> Map<Seq<char>, TransactionV> {
        map_of(self.txs())
    }

    /// The deposits as sender/asset pairs.
    pub closed spec fn deps(self) -> Seq<(Seq<char>, AssetV)> {
        pairs_view(self.assets@)
    }

    /// The deposit map: sender to currently escrowed asset.
    pub open spec fn dep_map(self) -> Map<Seq<char>, AssetV> {
        map_of(self.deps())
    }

    /// Some owner has signed: the bundle is no longer editable.
    pub open spec fn ratification_started(self) -> bool {
        self.sigs_seq().len() != 0
    }

    /// Every owner has signed the current bundle.
    pub open spec fn unanimous(self) -> bool {
        self.owner_set() <= self.sig_set()
    }

    /// Settlement is permitted: unanimous ratification and every
    /// transaction satisfied.
    pub open spec fn execute_permitted(self) -> bool {
        self.unanimous() && all_satisfied(self.tx_map())
    }

    /// Structural well-formedness: a non-empty owner set, signatures only
    /// from owners, and per-key-unique transaction and deposit entries.
    pub closed spec fn wf(self) -> bool {
        &&& self.owners@.len() > 0
        &&& self.sig_set() <= self.owner_set()
        &&& keys_distinct(self.txs())
        &&& keys_distinct(self.deps())
    }

    /// Start a coordinator for the given owners; refused when no owner is
    /// named, since an empty owner set would make unanimity vacuous.
    pub fn new(owners_in: Vec<String>) -> (r: Result<Contract, EscrowError>)
        ensures
            owners_in@.len() == 0 ==> r matches Err(EscrowError::ConfigError),
            owners_in@.len() != 0 ==> (r matches Ok(c) && {
                &&& c.wf()
                &&& c.owners_seq() == names_view(owners_in@)
                &&& c.owner_set() == names_view(owners_in@).to_set()
                &&& c.sig_set() == Set::<Seq<char>>::empty()
                &&& !c.ratification_started()
                &&& c.txs() == Seq::<(Seq<char>, TransactionV)>::empty()
                &&& c.deps() == Seq::<(Seq<char>, AssetV)>::empty()
                &&& c.tx_map() == Map::<Seq<char>, TransactionV>::empty()
                &&& c.dep_map() == Map::<Seq<char>, AssetV>::empty()
            }),
    {
        if owners_in.len() == 0 {
            return Err(EscrowError::ConfigError);
        }
        let c = Contract {
            owners: owners_in,
            signatures: Vec::new(),
            transactions: Vec::new(),
            assets: Vec::new(),
        };
        proof {
            assert(c.sigs_seq() =~= Seq::<Seq<char>>::empty());
            assert(c.sig_set() =~= Set::<Seq<char>>::empty());
            assert(c.txs() =~= Seq::<(Seq<char>, TransactionV)>::empty());
            assert(c.deps() =~= Seq::<(Seq<char>, AssetV)>::empty());
            lemma_map_of_empty::<TransactionV>();
            lemma_map_of_empty::<AssetV>();
        }
        Ok(c)
    }

    /// Ratify the current bundle. Only owners may sign; signing twice has
    /// no further effect.
    pub fn sign(&mut self, caller: &String) -> (r: Result<(), EscrowError>)
        requires
            old(self).wf(),
        ensures
            final(self).wf(),
            !old(self).owner_set().contains(caller@) ==> (r matches Err(
                EscrowError::AuthorizationError,
            ) && *final(self) == *old(self)),
            old(self).owner_set().contains(caller@) ==> ({
                &&& r is Ok
                &&& final(self).ratification_started()
                &&& final(self).sig_set() == old(self).sig_set().insert(caller@)
                &&& final(self).owners_seq() == old(self).owners_seq()
                &&& final(self).txs() == old(self).txs()
                &&& final(self).deps() == old(self).deps()
            }),
    {
        if !contains_name(&self.owners, caller) {
            return Err(EscrowError::AuthorizationError);
        }
        if !contains_name(&self.signatures, caller) {
            let ghost before = self.signatures@;
            self.signatures.push(caller.clone());
            proof {
                lemma_names_view_push(before, *caller);
            }
        } else {
            proof {
                assert(self.sig_set().insert(caller@) =~= self.sig_set());
            }
        }
        Ok(())
    }

    /// Record a fresh, unsatisfied transaction under `tx_name`, overwriting
    /// any transaction already recorded under that name. Only owners may
    /// edit, and only while nobody has signed.
    pub fn add_tx(
        &mut self,
        caller: &String,
        tx_name: String,
        sender: String,
        receiver: String,
        asset_type: String,
        quantity: u64,
    ) -> (r: Result<(), EscrowError>)
        requires
            old(self).wf(),
        ensures
            final(self).wf(),
            !old(self).owner_set().contains(caller@) ==> (r matches Err(
                EscrowError::AuthorizationError,
            ) && *final(self) == *old(self)),
            old(self).owner_set().contains(caller@) && old(self).ratification_started()
                ==> (r matches Err(EscrowError::StateError) && *final(self) == *old(self)),
            old(self).owner_set().contains(caller@) && !old(self).ratification_started() ==> ({
                &&& r is Ok
                &&& final(self).tx_map() == old(self).tx_map().insert(
                    tx_name@,
                    (TransactionV {
                        sender: sender@,
                        receiver: receiver@,
                        asset: AssetV { name: asset_type@, quantity: quantity },
                        satisfied: false,
                    }),
                )
                &&& ({
                    let v = TransactionV {
                        sender: sender@,
                        receiver: receiver@,
                        asset: AssetV { name: asset_type@, quantity: quantity },
                        satisfied: false,
                    };
                    if has_key(old(self).txs(), tx_name@) {
                        final(self).txs() == old(self).txs().update(
                            key_index(old(self).txs(), tx_name@),
                            ((tx_name@, v)),
                        )
                    } else {
                        final(self).txs() == old(self).txs().push(((tx_name@, v)))
                    }
                })
                &&& final(self).owners_seq() == old(self).owners_seq()
                &&& final(self).sigs_seq() == old(self).sigs_seq()
                &&& final(self).deps() == old(self).deps()
            }),
    {
        if !contains_name(&self.owners, caller) {
            return Err(EscrowError::AuthorizationError);
        }
        if self.signatures.len() != 0 {
            return Err(EscrowError::StateError);
        }
        let asset = Asset { name: asset_type, quantity };
        let tx = Transaction { sender, receiver, asset, satisfied: false };
        let ghost before = self.transactions@;
        match find_key(&self.transactions, &tx_name) {
            Some(i) => {
                let pair = (tx_name, tx);
                let ghost gpair = pair;
                self.transactions[i] = pair;
                proof {
                    lemma_map_of_entry(pairs_view(before), i as int);
                    lemma_pairs_view_update(before, i as int, gpair);
                    assert((gpair.0@, gpair.1@) == (pairs_view(before)[i as int].0, gpair.1@));
                    lemma_map_of_update(pairs_view(before), i as int, gpair.1@);
                    assert(final(self).tx_map() =~= old(self).tx_map().insert(tx_name@, gpair.1@));
                    assert(final(self).txs() =~= pairs_view(before).update(
                        i as int,
                        (gpair.0@, gpair.1@),
                    ));
                }
            },
            None => {
                self.transactions.push((tx_name, tx));
                proof {
                    lemma_pairs_view_push(before, ((tx_name, tx)));
                    lemma_map_of_push(pairs_view(before), tx_name@, tx@);
                    assert(final(self).tx_map() =~= old(self).tx_map().insert(tx_name@, tx@));
                    assert(final(self).txs() =~= pairs_view(before).push((tx_name@, tx@)));
                }
            },
        }
        Ok(())
    }

    /// Drop the transaction recorded under `tx_name`; silently a no-op when
    /// none is. Only owners may edit, and only while nobody has signed.
    pub fn rm_tx(&mut self, caller: &String, tx_name: String) -> (r: Result<(), EscrowError>)
        requires
            old(self).wf(),
        ensures
            final(self).wf(),
            !old(self).owner_set().contains(caller@) ==> (r matches Err(
                EscrowError::AuthorizationError,
            ) && *final(self) == *old(self)),
            old(self).owner_set().contains(caller@) && old(self).ratification_started()
                ==> (r matches Err(EscrowError::StateError) && *final(self) == *old(self)),
            old(self).owner_set().contains(caller@) && !old(self).ratification_started() ==> ({
                &&& r is Ok
                &&& final(self).tx_map() == old(self).tx_map().remove(tx_name@)
                &&& (if has_key(old(self).txs(), tx_name@) {
                    final(self).txs() == old(self).txs().remove(
                        key_index(old(self).txs(), tx_name@),
                    )
                } else {
                    final(self).txs() == old(self).txs()
                })
                &&& final(self).owners_seq() == old(self).owners_seq()
                &&& final(self).sigs_seq() == old(self).sigs_seq()
                &&& final(self).deps() == old(self).deps()
            }),
    {
        if !contains_name(&self.owners, caller) {
            return Err(EscrowError::AuthorizationError);
        }
        if self.signatures.len() != 0 {
            return Err(EscrowError::StateError);
        }
        let ghost before = self.transactions@;
        match find_key(&self.transactions, &tx_name) {
            Some(i) => {
                proof {
                    lemma_map_of_entry(pairs_view(before), i as int);
                }
                self.transactions.remove(i);
                proof {
                    lemma_pairs_view_remove(before, i as int);
                    lemma_map_of_remove(pairs_view(before), i as int);
                    assert(final(self).tx_map() =~= old(self).tx_map().remove(tx_name@));
                    assert(final(self).txs() =~= pairs_view(before).remove(i as int));
                }
            },
            None => {
                proof {
                    assert(!self.tx_map().dom().contains(tx_name@));
                    assert(self.tx_map().remove(tx_name@) =~= self.tx_map());
                }
            },
        }
        Ok(())
    }

    /// Escrow `asset` against the transaction named `tx_name`. The deposit
    /// is accepted only onto a transaction that is not yet satisfied, only
    /// from that transaction's sender, and only when the asset matches the
    /// required one exactly in both name and quantity; acceptance records
    /// the deposit under the sender and marks the transaction satisfied.
    pub fn dep_asset(&mut self, caller: &String, asset: Asset, tx_name: String) -> (r: Result<
        (),
        EscrowError,
    >)
        requires
            old(self).wf(),
        ensures
            final(self).wf(),
            !old(self).tx_map().contains_key(tx_name@) ==> (r matches Err(
                EscrowError::NotFoundError,
            ) && *final(self) == *old(self)),
            old(self).tx_map().contains_key(tx_name@) && old(self).tx_map()[tx_name@].satisfied
                ==> (r matches Err(EscrowError::StateError) && *final(self) == *old(self)),
            old(self).tx_map().contains_key(tx_name@) && !old(self).tx_map()[tx_name@].satisfied
                && old(self).tx_map()[tx_name@].asset != asset@ ==> (r matches Err(
                EscrowError::MismatchError { expected, actual },
            ) && expected@ == old(self).tx_map()[tx_name@].asset && actual@ == asset@
                && *final(self) == *old(self)),
            old(self).tx_map().contains_key(tx_name@) && !old(self).tx_map()[tx_name@].satisfied
                && old(self).tx_map()[tx_name@].asset == asset@ && old(self).tx_map()[
                tx_name@
            ].sender != caller@ ==> (r matches Err(EscrowError::AuthorizationError) && *final(self)
                == *old(self)),
            old(self).tx_map().contains_key(tx_name@) && !old(self).tx_map()[tx_name@].satisfied
                && old(self).tx_map()[tx_name@].asset == asset@ && old(self).tx_map()[
                tx_name@
            ].sender == caller@ ==> ({
                &&& r is Ok
                &&& final(self).tx_map() == old(self).tx_map().insert(
                    tx_name@,
                    (TransactionV { satisfied: true, ..old(self).tx_map().index(tx_name@) }),
                )
                &&& final(self).txs() == old(self).txs().update(
                    key_index(old(self).txs(), tx_name@),
                    ((
                        tx_name@,
                        (TransactionV { satisfied: true, ..old(self).tx_map().index(tx_name@) }),
                    )),
                )
                &&& final(self).dep_map() == old(self).dep_map().insert(caller@, asset@)
                &&& (if has_key(old(self).deps(), caller@) {
                    final(self).deps() == old(self).deps().update(
                        key_index(old(self).deps(), caller@),
                        ((caller@, asset@)),
                    )
                } else {
                    final(self).deps() == old(self).deps().push(((caller@, asset@)))
                })
                &&& final(self).owners_seq() == old(self).owners_seq()
                &&& final(self).sigs_seq() == old(self).sigs_seq()
            }),
    {
        let i = match find_key(&self.transactions, &tx_name) {
            Some(i) => i,
            None => {
                return Err(EscrowError::NotFoundError);
            },
        };
        proof {
            lemma_map_of_entry(self.txs(), i as int);
        }
        if self.transactions[i].1.satisfied {
            return Err(EscrowError::StateError);
        }
        if !(self.transactions[i].1.asset.name == asset.name && self.transactions[i].1.asset.quantity
            == asset.quantity) {
            let expected = self.transactions[i].1.asset.clone();
            return Err(EscrowError::MismatchError { expected, actual: asset });
        }
        if !(self.transactions[i].1.sender == *caller) {
            return Err(EscrowError::AuthorizationError);
        }
        let ghost before_txs = self.transactions@;
        let stored = self.transactions[i].1.clone();
        let new_tx = Transaction {
            sender: stored.sender,
            receiver: stored.receiver,
            asset: stored.asset,
            satisfied: true,
        };
        let pair = (tx_name, new_tx);
        let ghost gpair = pair;
        self.transactions[i] = pair;
        proof {
            lemma_pairs_view_update(before_txs, i as int, gpair);
            assert((gpair.0@, gpair.1@) == (pairs_view(before_txs)[i as int].0, gpair.1@));
            lemma_map_of_update(pairs_view(before_txs), i as int, gpair.1@);
            assert(self.tx_map() =~= old(self).tx_map().insert(gpair.0@, gpair.1@));
            assert(self.txs() =~= pairs_view(before_txs).update(i as int, (gpair.0@, gpair.1@)));
        }
        let ghost before_deps = self.assets@;
        match find_key(&self.assets, caller) {
            Some(j) => {
                proof {
                    lemma_map_of_entry(pairs_view(before_deps), j as int);
                }
                let dpair = (caller.clone(), asset);
                let ghost gd = dpair;
                self.assets[j] = dpair;
                proof {
                    lemma_pairs_view_update(before_deps, j as int, gd);
                    assert((gd.0@, gd.1@) == (pairs_view(before_deps)[j as int].0, gd.1@));
                    lemma_map_of_update(pairs_view(before_deps), j as int, gd.1@);
                    assert(self.dep_map() =~= old(self).dep_map().insert(caller@, gd.1@));
                    assert(self.deps() =~= pairs_view(before_deps).update(
                        j as int,
                        (gd.0@, gd.1@),
                    ));
                }
            },
            None => {
                let dpair = (caller.clone(), asset);
                let ghost gd = dpair;
                self.assets.push(dpair);
                proof {
                    lemma_pairs_view_push(before_deps, gd);
                    lemma_map_of_push(pairs_view(before_deps), gd.0@, gd.1@);
                    assert(self.dep_map() =~= old(self).dep_map().insert(caller@, gd.1@));
                    assert(self.deps() =~= pairs_view(before_deps).push((gd.0@, gd.1@)));
                }
            },
        }
        Ok(())
    }

    /// Give a sender its escrowed asset back: drop the sender's entry from
    /// the deposit map and mark the transaction unsatisfied again. Only the
    /// transaction's sender may withdraw.
    pub fn withdraw_asset(&mut self, caller: &String, tx_name: String) -> (r: Result<
        (),
        EscrowError,
    >)
        requires
            old(self).wf(),
        ensures
            final(self).wf(),
            !old(self).tx_map().contains_key(tx_name@) ==> (r matches Err(
                EscrowError::NotFoundError,
            ) && *final(self) == *old(self)),
            old(self).tx_map().contains_key(tx_name@) && old(self).tx_map()[tx_name@].sender
                != caller@ ==> (r matches Err(EscrowError::AuthorizationError) && *final(self)
                == *old(self)),
            old(self).tx_map().contains_key(tx_name@) && old(self).tx_map()[tx_name@].sender
                == caller@ ==> ({
                &&& r is Ok
                &&& final(self).tx_map() == old(self).tx_map().insert(
                    tx_name@,
                    (TransactionV { satisfied: false, ..old(self).tx_map().index(tx_name@) }),
                )
                &&& final(self).txs() == old(self).txs().update(
                    key_index(old(self).txs(), tx_name@),
                    ((
                        tx_name@,
                        (TransactionV { satisfied: false, ..old(self).tx_map().index(tx_name@) }),
                    )),
                )
                &&& final(self).dep_map() == old(self).dep_map().remove(caller@)
                &&& (if has_key(old(self).deps(), caller@) {
                    final(self).deps() == old(self).deps().remove(
                        key_index(old(self).deps(), caller@),
                    )
                } else {
                    final(self).deps() == old(self).deps()
                })
                &&& final(self).owners_seq() == old(self).owners_seq()
                &&& final(self).sigs_seq() == old(self).sigs_seq()
            }),
    {
        let i = match find_key(&self.transactions, &tx_name) {
            Some(i) => i,
            None => {
                return Err(EscrowError::NotFoundError);
            },
        };
        proof {
            lemma_map_of_entry(self.txs(), i as int);
        }
        if !(self.transactions[i].1.sender == *caller) {
            return Err(EscrowError::AuthorizationError);
        }
        let ghost before_txs = self.transactions@;
        let stored = self.transactions[i].1.clone();
        let new_tx = Transaction {
            sender: stored.sender,
            receiver: stored.receiver,
            asset: stored.asset,
            satisfied: false,
        };
        let pair = (tx_name, new_tx);
        let ghost gpair = pair;
        self.transactions[i] = pair;
        proof {
            lemma_pairs_view_update(before_txs, i as int, gpair);
            assert((gpair.0@, gpair.1@) == (pairs_view(before_txs)[i as int].0, gpair.1@));
            lemma_map_of_update(pairs_view(before_txs), i as int, gpair.1@);
            assert(self.tx_map() =~= old(self).tx_map().insert(gpair.0@, gpair.1@));
            assert(self.txs() =~= pairs_view(before_txs).update(i as int, (gpair.0@, gpair.1@)));
        }
        let ghost before_deps = self.assets@;
        match find_key(&self.assets, caller) {
            Some(j) => {
                proof {
                    lemma_map_of_entry(pairs_view(before_deps), j as int);
                }
                self.assets.remove(j);
                proof {
                    lemma_pairs_view_remove(before_deps, j as int);
                    lemma_map_of_remove(pairs_view(before_deps), j as int);
                    assert(self.dep_map() =~= old(self).dep_map().remove(caller@));
                    assert(self.deps() =~= pairs_view(before_deps).remove(j as int));
                }
            },
            None => {
                proof {
                    assert(!self.dep_map().dom().contains(caller@));
                    assert(self.dep_map().remove(caller@) =~= self.dep_map());
                }
            },
        }
        Ok(())
    }

    /// Settle the bundle. Settlement is permitted only under unanimous
    /// ratification with every transaction satisfied; it then hands back
    /// one release instruction per transaction, in bundle order, and clears
    /// the deposit map. On refusal nothing changes: the error names either
    /// the first owner whose signature is missing, or the first
    /// transaction that is not satisfied.
    pub fn execute(&mut self) -> (r: Result<Vec<Release>, EscrowError>)
        requires
            old(self).wf(),
        ensures
            final(self).wf(),
            r is Ok <==> old(self).execute_permitted(),
            !old(self).unanimous() ==> (r matches Err(EscrowError::ConsensusError { missing }) && {
                &&& *final(self) == *old(self)
                &&& !old(self).sig_set().contains(missing@)
                &&& exists|i: int|
                    #![trigger old(self).owners_seq()[i]]
                    0 <= i < old(self).owners_seq().len() && old(self).owners_seq()[i] == missing@
                        && (forall|j: int|
                        0 <= j < i ==> old(self).sig_set().contains(
                            #[trigger] old(self).owners_seq()[j],
                        ))
            }),
            old(self).unanimous() && !all_satisfied(old(self).tx_map()) ==> (r matches Err(
                EscrowError::UnsatisfiedTermError { tx_name, sender, asset_name, quantity },
            ) && {
                &&& *final(self) == *old(self)
                &&& exists|i: int|
                    #![trigger old(self).txs()[i]]
                    0 <= i < old(self).txs().len() && old(self).txs()[i].0 == tx_name@ && !old(
                        self,
                    ).txs()[i].1.satisfied && old(self).txs()[i].1.sender == sender@ && old(
                        self,
                    ).txs()[i].1.asset.name == asset_name@ && old(self).txs()[i].1.asset.quantity
                        == quantity && (forall|j: int|
                        0 <= j < i ==> (#[trigger] old(self).txs()[j]).1.satisfied)
            }),
            old(self).execute_permitted() ==> (r matches Ok(rel) && {
                &&& rel@.len() == old(self).txs().len()
                &&& rel@.len() == old(self).tx_map().dom().len()
                &&& forall|i: int|
                    0 <= i < rel@.len() ==> (#[trigger] rel@[i])@ == (ReleaseV {
                        asset: old(self).txs()[i].1.asset,
                        receiver: old(self).txs()[i].1.receiver,
                    })
                &&& final(self).dep_map() == Map::<Seq<char>, AssetV>::empty()
                &&& final(self).txs() == old(self).txs()
                &&& final(self).owners_seq() == old(self).owners_seq()
                &&& final(self).sigs_seq() == old(self).sigs_seq()
            }),
    {
        if let Some(i) = self.first_unsigned() {
            let missing = self.owners[i].clone();
            return Err(EscrowError::ConsensusError { missing });
        }
        if let Some(i) = self.first_unsatisfied() {
            proof {
                lemma_map_of_entry(self.txs(), i as int);
                assert(!all_satisfied(self.tx_map()));
            }
            let tx_name = self.transactions[i].0.clone();
            let sender = self.transactions[i].1.sender.clone();
            let asset_name = self.transactions[i].1.asset.name.clone();
            let quantity = self.transactions[i].1.asset.quantity;
            return Err(EscrowError::UnsatisfiedTermError { tx_name, sender, asset_name, quantity });
        }
        let mut rel: Vec<Release> = Vec::new();
        let mut i: usize = 0;
        while i < self.transactions.len()
            invariant
                *self == *old(self),
                i <= self.transactions@.len(),
                rel@.len() == i,
                forall|j: int|
                    0 <= j < i ==> (#[trigger] rel@[j])@ == (ReleaseV {
                        asset: pairs_view(self.transactions@)[j].1.asset,
                        receiver: pairs_view(self.transactions@)[j].1.receiver,
                    }),
            decreases self.transactions@.len() - i,
        {
            let asset = self.transactions[i].1.asset.clone();
            let receiver = self.transactions[i].1.receiver.clone();
            rel.push(Release { asset, receiver });
            i += 1;
        }
        self.assets.clear();
        proof {
            assert(self.deps() =~= Seq::<(Seq<char>, AssetV)>::empty());
            lemma_map_of_empty::<AssetV>();
            assert(self.dep_map() =~= Map::<Seq<char>, AssetV>::empty());
            lemma_map_of_dom_len(old(self).txs());
        }
        Ok(rel)
    }

    /// The position of the first owner that has not signed, scanning the
    /// owners in construction order.
    fn first_unsigned(&self) -> (r: Option<usize>)
        ensures
            match r {
                Some(i) => i < self.owners_seq().len() && !self.sig_set().contains(
                    self.owners_seq()[i as int],
                ) && (forall|j: int|
                    0 <= j < i ==> self.sig_set().contains(#[trigger] self.owners_seq()[j])),
                None => self.unanimous(),
            },
    {
        let mut i: usize = 0;
        while i < self.owners.len()
            invariant
                i <= self.owners@.len(),
                forall|j: int| 0 <= j < i ==> self.sig_set().contains(#[trigger] self.owners_seq()[j]),
            decreases self.owners@.len() - i,
        {
            if !contains_name(&self.signatures, &self.owners[i]) {
                assert(self.owners_seq()[i as int] == self.owners@[i as int]@);
                return Some(i);
            }
            assert(self.sig_set().contains(self.owners_seq()[i as int]));
            i += 1;
        }
        proof {
            assert forall|o: Seq<char>| self.owner_set().contains(o) implies self.sig_set().contains(
                o,
            ) by {
                let k = choose|k: int| 0 <= k < self.owners_seq().len() && self.owners_seq()[k] == o;
                assert(self.sig_set().contains(self.owners_seq()[k]));
            }
        }
        None
    }

    /// The position of the first transaction that is not satisfied, in
    /// bundle order.
    fn first_unsatisfied(&self) -> (r: Option<usize>)
        requires
            self.wf(),
        ensures
            match r {
                Some(i) => i < self.txs().len() && !self.txs()[i as int].1.satisfied && (forall|
                    j: int,
                |
                    0 <= j < i ==> (#[trigger] self.txs()[j]).1.satisfied),
                None => all_satisfied(self.tx_map()),
            },
    {
        let mut i: usize = 0;
        while i < self.transactions.len()
            invariant
                i <= self.transactions@.len(),
                forall|j: int| 0 <= j < i ==> (#[trigger] pairs_view(self.transactions@)[j]).1.satisfied,
            decreases self.transactions@.len() - i,
        {
            if !self.transactions[i].1.satisfied {
                return Some(i);
            }
            assert(pairs_view(self.transactions@)[i as int].1.satisfied);
            i += 1;
        }
        proof {
            assert forall|k: Seq<char>| #[trigger] self.tx_map().dom().contains(k)
                implies self.tx_map().index(k).satisfied by {
                let j = crate::keymap::key_index(self.txs(), k);
                assert(0 <= j < self.txs().len() && self.txs()[j].0 == k);
                lemma_map_of_entry(self.txs(), j);
            }
        }
        None
    }

    /// Read the transaction recorded under `tx_name`.
    pub fn get_tx(&self, tx_name: String) -> (r: Result<Transaction, EscrowError>)
        requires
            self.wf(),
        ensures
            self.tx_map().contains_key(tx_name@) ==> (r matches Ok(t) && t@ == self.tx_map().index(
                tx_name@,
            )),
            !self.tx_map().contains_key(tx_name@) ==> r matches Err(EscrowError::NotFoundError),
    {
        match find_key(&self.transactions, &tx_name) {
            Some(i) => {
                proof {
                    lemma_map_of_entry(self.txs(), i as int);
                }
                let t = self.transactions[i].1.clone();
                Ok(t)
            },
            None => Err(EscrowError::NotFoundError),
        }
    }
}

/// Whether `name` occurs in `v`, compared by contents.
fn contains_name(v: &Vec<String>, name: &String) -> (r: bool)
    ensures
        r == names_view(v@).contains(name@),
        r == names_view(v@).to_set().contains(name@),
{
    let mut i: usize = 0;
    while i < v.len()
        invariant
            i <= v@.len(),
            forall|j: int| 0 <= j < i ==> names_view(v@)[j] != name@,
        decreases v@.len() - i,
    {
        if v[i] == *name {
            assert(names_view(v@)[i as int] == name@);
            return true;
        }
        i += 1;
    }
    assert(!names_view(v@).contains(name@));
    false
}

/// Appending a name inserts its view into the set of views.
proof fn lemma_names_view_push(s: Seq<String>, x: String)
    ensures
        names_view(s.push(x)).to_set() =~= names_view(s).to_set().insert(x@),
{
    assert(names_view(s.push(x)) =~= names_view(s).push(x@));
    assert forall|y: Seq<char>| #![auto] names_view(s).push(x@).contains(y) implies names_view(
        s,
    ).to_set().insert(x@).contains(y) by {
        let i = choose|i: int| 0 <= i < names_view(s).push(x@).len() && names_view(s).push(x@)[i]
            == y;
        if i < names_view(s).len() {
            assert(names_view(s)[i] == y);
            assert(names_view(s).contains(y));
        }
    }
    assert forall|y: Seq<char>| #![auto] names_view(s).to_set().insert(x@).contains(y)
        implies names_view(s).push(x@).contains(y) by {
        if names_view(s).contains(y) {
            let i = choose|i: int| 0 <= i < names_view(s).len() && names_view(s)[i] == y;
            assert(names_view(s).push(x@)[i] == y);
        } else {
            assert(y == x@);
            assert(names_view(s).push(x@)[names_view(s).len() as int] == y);
        }
    }
}

} // verus!
