//! Accounts: their order, and what a change of an account's connection means.

use crate::error::{CoreError, Result};
use crate::text::{lit, opt, opt_str, same};
use vstd::prelude::*;
use vstd::string::*;

verus! {

/// The state of an account whose credentials are still being set up: it can be found again, but is
/// neither shown nor started.
pub const CREDENTIAL_SETUP_STATE: &'static str = "credential_setup";

/// An account that is to be stored. The provider, the way of authentication and the mail protocol
/// are given as they are stored.
pub struct NewAccount<'a> {
    pub email: &'a str,
    pub display_name: Option<&'a str>,
    pub avatar_url: Option<&'a str>,
    pub provider: &'a str,
    pub auth_kind: &'a str,
    pub mail_protocol: &'a str,
    pub username: &'a str,
    pub jmap_url: &'a str,
    pub jmap_account_id: Option<&'a str>,
    pub imap_host: &'a str,
    pub imap_port: u16,
    pub smtp_host: &'a str,
    pub smtp_port: u16,
}

/// Whether an account is shown and started.
pub fn is_visible(sync_state: &str) -> (r: bool)
    ensures
        r == (sync_state@ != CREDENTIAL_SETUP_STATE@),
{
    !same(sync_state, CREDENTIAL_SETUP_STATE)
}

/// How the remote side of an account was stored.
pub struct RemoteIdentity {
    pub protocol: String,
    pub jmap_url: String,
    pub jmap_account_id: Option<String>,
}

/// Whether an account speaks to another remote mailbox than before: JMAP on either side, and
/// another protocol, server or account there.
pub open spec fn identity_changed(before: RemoteIdentity, a: NewAccount) -> bool {
    (before.protocol@ == "jmap"@ || a.mail_protocol@ == "jmap"@) && (before.protocol@
        != a.mail_protocol@ || before.jmap_url@ != a.jmap_url@ || opt(before.jmap_account_id)
        != opt_str(a.jmap_account_id))
}

/// Whether an account speaks to another remote mailbox than before, so that everything known of
/// the old one must be forgotten.
pub fn jmap_identity_changed(before: &RemoteIdentity, a: &NewAccount) -> (r: bool)
    ensures
        r == identity_changed(*before, *a),
        before.protocol@ != "jmap"@ && a.mail_protocol@ != "jmap"@ ==> !r,
        before.protocol@ == "jmap"@ && a.mail_protocol@ == "jmap"@ ==> (r <==> before.jmap_url@
            != a.jmap_url@ || opt(before.jmap_account_id) != opt_str(a.jmap_account_id)),
        (before.protocol@ == "jmap"@) != (a.mail_protocol@ == "jmap"@) ==> r,
{
    let same_account = match (&before.jmap_account_id, a.jmap_account_id) {
        (Some(x), Some(y)) => same(x.as_str(), y),
        (None, None) => true,
        _ => false,
    };
    (same(before.protocol.as_str(), "jmap") || same(a.mail_protocol, "jmap")) && (!same(
        before.protocol.as_str(),
        a.mail_protocol,
    ) || !same(before.jmap_url.as_str(), a.jmap_url) || !same_account)
}

/// Whether the remote ids of folders are forgotten with the old mailbox: they name folders of
/// JMAP on both sides.
pub fn forgets_folders(before: &RemoteIdentity, a: &NewAccount) -> (r: bool)
    ensures
        r == (identity_changed(*before, *a) && before.protocol@ == "jmap"@ && a.mail_protocol@
            == "jmap"@),
{
    jmap_identity_changed(before, a) && same(before.protocol.as_str(), "jmap") && same(
        a.mail_protocol,
        "jmap",
    )
}

/// Where an id first stands; the length where it does not.
pub open spec fn place(ids: Seq<i64>, id: i64) -> int
    decreases ids.len(),
{
    if ids.len() == 0 || ids[0] == id {
        0
    } else {
        1 + place(ids.skip(1), id)
    }
}

proof fn place_is(ids: Seq<i64>, id: i64, k: int)
    requires
        0 <= k <= ids.len(),
        forall|j: int| 0 <= j < k ==> ids[j] != id,
        k < ids.len() ==> ids[k] == id,
    ensures
        place(ids, id) == k,
    decreases ids.len(),
{
    if k > 0 {
        assert(forall|j: int| 0 <= j < k - 1 ==> ids.skip(1)[j] == ids[j + 1]);
        place_is(ids.skip(1), id, k - 1);
    }
}

fn find(ids: &Vec<i64>, id: i64) -> (r: Option<usize>)
    ensures
        match r {
            Some(i) => i < ids@.len() && i == place(ids@, id) && ids@[i as int] == id,
            None => !ids@.contains(id),
        },
        r is Some <==> ids@.contains(id),
{
    let mut i: usize = 0;
    while i < ids.len()
        invariant
            i <= ids.len(),
            forall|j: int| 0 <= j < i ==> ids@[j] != id,
        decreases ids.len() - i,
    {
        if ids[i] == id {
            proof {
                place_is(ids@, id, i as int);
            }
            return Some(i);
        }
        i = i + 1;
    }
    None
}

/// The order with one account taken out and put before or behind another.
pub open spec fn moved(ids: Seq<i64>, source: i64, target: i64, after: bool) -> Seq<i64> {
    let rest = ids.remove(place(ids, source));
    let at = place(rest, target) + if after {
        1int
    } else {
        0
    };
    rest.insert(at, source)
}

/// Move one account before or after another and compact the persisted order.
/// A complete rewrite keeps ordering deterministic after any number of moves
/// and avoids fragile fractional positions.
pub fn reorder(ids: Vec<i64>, source_id: i64, target_id: i64, after: bool) -> (r: Result<Vec<i64>>)
    ensures
        if source_id == target_id {
            r == Ok::<Vec<i64>, CoreError>(ids)
        } else if !ids@.contains(source_id) {
            r is Err && r->Err_0 is NotFound && r->Err_0->NotFound_0@ == "source account"@
        } else if !ids@.remove(place(ids@, source_id)).contains(target_id) {
            r is Err && r->Err_0 is NotFound && r->Err_0->NotFound_0@ == "target account"@
        } else {
            r is Ok && r->Ok_0@ == moved(ids@, source_id, target_id, after)
        },
{
    if source_id == target_id {
        return Ok(ids);
    }
    let from: usize = match find(&ids, source_id) {
        Some(i) => i,
        None => {
            return Err(CoreError::NotFound(lit("source account")));
        },
    };
    let mut ids = ids;
    let _ = ids.remove(from);
    let to: usize = match find(&ids, target_id) {
        Some(i) => i,
        None => {
            return Err(CoreError::NotFound(lit("target account")));
        },
    };
    let count: usize = ids.len();
    let at: usize = if after && to < count {
        to + 1
    } else {
        to
    };
    ids.insert(at, source_id);
    Ok(ids)
}

proof fn place_finds(ids: Seq<i64>, id: i64)
    requires
        ids.contains(id),
    ensures
        0 <= place(ids, id) < ids.len(),
        ids[place(ids, id)] == id,
        forall|j: int| 0 <= j < place(ids, id) ==> ids[j] != id,
    decreases ids.len(),
{
    if ids[0] != id {
        let k = choose|k: int| 0 <= k < ids.len() && ids[k] == id;
        assert(ids.skip(1)[k - 1] == id);
        place_finds(ids.skip(1), id);
        assert(forall|j: int| 1 <= j < ids.len() ==> ids[j] == ids.skip(1)[j - 1]);
    }
}

/// Moving an account loses none and adds none: the same accounts stand in the new order, the moved
/// one stands next to its target on the side that was asked for, and all others keep their order.
pub proof fn reordering_keeps_every_account(ids: Seq<i64>, source: i64, target: i64, after: bool)
    requires
        source != target,
        ids.contains(source),
        ids.contains(target),
    ensures
        ({
            let rest = ids.remove(place(ids, source));
            let out = moved(ids, source, target, after);
            let at = place(rest, target);
            &&& rest.contains(target)
            &&& out.to_multiset() == ids.to_multiset()
            &&& out.len() == ids.len()
            &&& after ==> out[at] == target && out[at + 1] == source
            &&& !after ==> out[at] == source && out[at + 1] == target
            &&& out.remove(if after {
                at + 1
            } else {
                at
            }) == rest
        }),
{
    broadcast use vstd::seq_lib::group_to_multiset_ensures;

    place_finds(ids, source);
    let k = place(ids, source);
    let rest = ids.remove(k);
    assert(rest.contains(target)) by {
        let t = choose|t: int| 0 <= t < ids.len() && ids[t] == target;
        if t < k {
            assert(rest[t] == target);
        } else {
            assert(rest[t - 1] == target);
        }
    }
    place_finds(rest, target);
    let at = place(rest, target);
    let spot = if after {
        at + 1
    } else {
        at
    };
    let out = rest.insert(spot, source);
    assert(out.remove(spot) =~= rest);
    assert(rest.to_multiset() =~= ids.to_multiset().remove(source));
    assert(out.remove(spot).to_multiset() =~= out.to_multiset().remove(source));
    assert(ids.to_multiset().contains(source)) by {
        assert(ids.contains(source));
    }
    assert(out.to_multiset().contains(source)) by {
        assert(out[spot] == source);
        assert(out.contains(source));
    }
    assert(ids.to_multiset().remove(source).insert(source) =~= ids.to_multiset());
    assert(out.to_multiset().remove(source).insert(source) =~= out.to_multiset());
}

} // verus!
