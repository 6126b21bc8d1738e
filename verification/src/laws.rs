//! The protocol's laws, stated and proved over the coordinator's
//! mathematical model: the owner and signature sets, the bundle map and the
//! deposit map that every operation's contract is phrased over.

use vstd::prelude::*;
use crate::contract::Contract;
use crate::contract::all_satisfied;
use crate::entities::AssetV;
use crate::entities::TransactionV;

verus! {

/// Unanimity: settlement is permitted only when every single owner has
/// signed. Together with `execute`'s contract (`Ok` exactly when
/// `execute_permitted`), no bundle settles while any owner's signature is
/// missing.
pub proof fn lemma_unanimity_necessary(c: Contract, o: Seq<char>)
    requires
        c.execute_permitted(),
        c.owner_set().contains(o),
    ensures
        c.sig_set().contains(o),
{
}

/// Unanimity is fragile: a bundle that every owner has signed stops being
/// executable as soon as any one owner's signature is taken away. By
/// `execute`'s contract, a coordinator that is not unanimous can only
/// answer `ConsensusError`.
pub proof fn lemma_unanimity_lost(c1: Contract, c2: Contract, o: Seq<char>)
    requires
        c1.unanimous(),
        c1.owner_set().contains(o),
        c2.owner_set() == c1.owner_set(),
        c2.sig_set() == c1.sig_set().remove(o),
    ensures
        !c2.unanimous(),
{
    assert(!c2.sig_set().contains(o));
}

/// No edit after ratification: as soon as any owner has signed, the
/// condition under which `add_tx` and `rm_tx` succeed cannot hold for any
/// caller; by their contracts every edit then fails (with `StateError` for
/// an owner, `AuthorizationError` for anyone else) and changes nothing.
pub proof fn lemma_no_edit_after_ratification(c: Contract, caller: Seq<char>)
    requires
        c.ratification_started(),
    ensures
        !(c.owner_set().contains(caller) && !c.ratification_started()),
{
}

/// Draft round-trip: adding a term, removing it, and adding it again under
/// the same name leaves exactly the bundle a single addition would have
/// produced; the re-added transaction equals a freshly constructed one.
pub proof fn lemma_draft_round_trip(m: Map<Seq<char>, TransactionV>, k: Seq<char>, t: TransactionV)
    ensures
        m.insert(k, t).remove(k).insert(k, t) == m.insert(k, t),
        m.insert(k, t).remove(k).insert(k, t)[k] == t,
{
    assert(m.insert(k, t).remove(k).insert(k, t) =~= m.insert(k, t));
}

/// All-or-nothing settlement: one unsatisfied transaction is enough to bar
/// settlement; by `execute`'s contract the call then reports the first
/// unsatisfied transaction and leaves every collection, the deposit map
/// included, unchanged.
pub proof fn lemma_unsatisfied_blocks(c: Contract, k: Seq<char>)
    requires
        c.tx_map().contains_key(k),
        !c.tx_map()[k].satisfied,
    ensures
        !all_satisfied(c.tx_map()),
        !c.execute_permitted(),
{
}

/// Withdraw reverses deposit: starting from an unsatisfied transaction
/// whose sender holds no deposit, a deposit followed by a withdrawal (per
/// `dep_asset`'s and `withdraw_asset`'s contracts) leaves the bundle and
/// deposit maps exactly as they started; and settlement is barred again
/// afterwards.
pub proof fn lemma_withdraw_reverses_deposit(
    txm: Map<Seq<char>, TransactionV>,
    depm: Map<Seq<char>, AssetV>,
    k: Seq<char>,
    caller: Seq<char>,
    a: AssetV,
)
    requires
        txm.contains_key(k),
        !txm[k].satisfied,
        !depm.contains_key(caller),
    ensures
        ({
            let deposited = txm.insert(k, (TransactionV { satisfied: true, ..txm[k] }));
            deposited.insert(k, (TransactionV { satisfied: false, ..deposited[k] })) == txm
        }),
        depm.insert(caller, a).remove(caller) == depm,
        !all_satisfied(
            ({
                let deposited = txm.insert(k, (TransactionV { satisfied: true, ..txm[k] }));
                deposited.insert(k, (TransactionV { satisfied: false, ..deposited[k] }))
            }),
        ),
{
    let deposited = txm.insert(k, (TransactionV { satisfied: true, ..txm[k] }));
    let restored = deposited.insert(k, (TransactionV { satisfied: false, ..deposited[k] }));
    assert(restored[k] == txm[k]);
    assert(restored == txm) by {
        assert(restored =~= txm);
    }
    assert(depm.insert(caller, a).remove(caller) =~= depm);
}

} // verus!
