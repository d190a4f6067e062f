//! The addresses that an account may send from.

use crate::error::{fails, other, CoreError, Result};
use crate::sorting::{sort_list, sorted_by};
use crate::text::{
    ascii_lower, ascii_lowercase, is_same_ascii, lit, opt, opt_str, order_texts, same, same_ascii,
    text_order, texts,
};
use vstd::prelude::*;
use vstd::string::*;

verus! {

/// An address that an account may send from.
#[derive(Debug)]
pub struct SenderIdentity {
    pub account_id: i64,
    pub email: String,
    pub display_name: Option<String>,
    pub reply_to_email: Option<String>,
    pub is_primary: bool,
    pub is_provider_default: bool,
    pub verification_status: String,
    pub last_synced_at: i64,
}

/// The model of a [`SenderIdentity`].
pub struct Identity {
    pub account_id: i64,
    pub email: Seq<char>,
    pub display_name: Option<Seq<char>>,
    pub reply_to_email: Option<Seq<char>>,
    pub is_primary: bool,
    pub is_provider_default: bool,
    pub verification_status: Seq<char>,
    pub last_synced_at: i64,
}

impl View for SenderIdentity {
    type V = Identity;

    open spec fn view(&self) -> Identity {
        Identity {
            account_id: self.account_id,
            email: self.email@,
            display_name: opt(self.display_name),
            reply_to_email: opt(self.reply_to_email),
            is_primary: self.is_primary,
            is_provider_default: self.is_provider_default,
            verification_status: self.verification_status@,
            last_synced_at: self.last_synced_at,
        }
    }
}

/// The models of a list of identities.
pub open spec fn identities(v: Seq<SenderIdentity>) -> Seq<Identity> {
    v.map_values(|i: SenderIdentity| i@)
}

/// Where an account's identity with that address stands; the length where it has none.
pub open spec fn place(all: Seq<Identity>, account_id: i64, email: Seq<char>) -> int
    decreases all.len(),
{
    if all.len() == 0 || (all[0].account_id == account_id && all[0].email == email) {
        0
    } else {
        1 + place(all.skip(1), account_id, email)
    }
}

proof fn place_is(all: Seq<Identity>, account_id: i64, email: Seq<char>, k: int)
    requires
        0 <= k <= all.len(),
        forall|j: int|
            0 <= j < k ==> !((#[trigger] all[j]).account_id == account_id && all[j].email == email),
        k < all.len() ==> all[k].account_id == account_id && all[k].email == email,
    ensures
        place(all, account_id, email) == k,
    decreases all.len(),
{
    if k > 0 {
        assert(!(all[0].account_id == account_id && all[0].email == email));
        assert forall|j: int| 0 <= j < k - 1 implies !((#[trigger] all.skip(1)[j]).account_id
            == account_id && all.skip(1)[j].email == email) by {
            assert(all.skip(1)[j] == all[j + 1]);
        }
        place_is(all.skip(1), account_id, email, k - 1);
    }
}

/// The identities of which one is the account's own address.
pub open spec fn with_primary(
    all: Seq<Identity>,
    account_id: i64,
    email: Seq<char>,
    display_name: Option<Seq<char>>,
    now: i64,
) -> Seq<Identity> {
    let k = place(all, account_id, email);
    if k < all.len() {
        all.update(
            k,
            Identity {
                display_name: if display_name is Some {
                    display_name
                } else {
                    all[k].display_name
                },
                is_primary: true,
                verification_status: "accepted"@,
                ..all[k]
            },
        )
    } else {
        all.push(
            Identity {
                account_id,
                email,
                display_name,
                reply_to_email: None,
                is_primary: true,
                is_provider_default: true,
                verification_status: "accepted"@,
                last_synced_at: now,
            },
        )
    }
}

fn own(o: Option<&str>) -> (r: Option<String>)
    ensures
        opt(r) == opt_str(o),
{
    match o {
        Some(s) => Some(lit(s)),
        None => None,
    }
}

/// See to it that an account may send from its own address.
pub fn ensure_primary(
    all: &mut Vec<SenderIdentity>,
    account_id: i64,
    email: &str,
    display_name: Option<&str>,
    now: i64,
)
    ensures
        identities(final(all)@) == with_primary(
            identities(old(all)@),
            account_id,
            email@,
            opt_str(display_name),
            now,
        ),
{
    let ghost before = identities(all@);
    let ghost start = all@;
    let mut i: usize = 0;
    while i < all.len()
        invariant
            i <= all.len(),
            start == all@,
            start == old(all)@,
            before == identities(start),
            forall|j: int|
                0 <= j < i ==> !((#[trigger] before[j]).account_id == account_id && before[j].email
                    == email@),
        decreases all.len() - i,
    {
        if all[i].account_id == account_id && same(all[i].email.as_str(), email) {
            proof {
                assert(before[i as int] == all@[i as int]@);
                place_is(before, account_id, email@, i as int);
            }
            if display_name.is_some() {
                all[i].display_name = own(display_name);
            }
            all[i].is_primary = true;
            all[i].verification_status = lit("accepted");
            proof {
                assert(identities(all@) =~= with_primary(
                    before,
                    account_id,
                    email@,
                    opt_str(display_name),
                    now,
                ));
            }
            return ;
        }
        proof {
            assert(before[i as int] == all@[i as int]@);
        }
        i = i + 1;
    }
    proof {
        place_is(before, account_id, email@, i as int);
    }
    let fresh = SenderIdentity {
        account_id,
        email: lit(email),
        display_name: own(display_name),
        reply_to_email: None,
        is_primary: true,
        is_provider_default: true,
        verification_status: lit("accepted"),
        last_synced_at: now,
    };
    all.push(fresh);
    proof {
        assert(identities(all@) =~= before.push(fresh@));
    }
}

/// Whether one identity is offered before another: the provider's default first, then the primary
/// one, then by address.
pub open spec fn ranks_before(a: Identity, b: Identity) -> bool {
    if a.is_provider_default != b.is_provider_default {
        a.is_provider_default
    } else if a.is_primary != b.is_primary {
        a.is_primary
    } else {
        text_order(lowered(a.email), lowered(b.email)) < 0
    }
}

/// An address with its ASCII letters in lower case.
pub open spec fn lowered(s: Seq<char>) -> Seq<char> {
    s.map_values(|c: char| ascii_lower(c))
}

fn is_ranked_before(a: &SenderIdentity, b: &SenderIdentity) -> (r: bool)
    ensures
        r == ranks_before(a@, b@),
{
    if a.is_provider_default != b.is_provider_default {
        a.is_provider_default
    } else if a.is_primary != b.is_primary {
        a.is_primary
    } else {
        let x = ascii_lowercase(a.email.as_str());
        let y = ascii_lowercase(b.email.as_str());
        order_texts(x.as_str(), y.as_str()) < 0
    }
}

/// The identities of an account in the order in which they are offered.
pub fn list(all: Vec<SenderIdentity>) -> (r: Vec<SenderIdentity>)
    ensures
        r@ == sorted_by(all@, |a: SenderIdentity, b: SenderIdentity| ranks_before(a@, b@)),
{
    let order = |a: &SenderIdentity, b: &SenderIdentity| -> (r: bool)
        ensures
            r == ranks_before(a@, b@),
        { is_ranked_before(a, b) };
    sort_list(all, order, Ghost(|a: SenderIdentity, b: SenderIdentity| ranks_before(a@, b@)))
}

/// Check what a provider discovered before it replaces what was known: an account without its
/// primary address could not send.
pub fn check_discovered(discovered: &Vec<SenderIdentity>) -> (r: Result<()>)
    ensures
        if exists|i: int| 0 <= i < discovered@.len() && (#[trigger] discovered@[i]).is_primary {
            r is Ok
        } else {
            fails(r, "sender identity discovery omitted the primary address"@)
        },
{
    let mut i: usize = 0;
    while i < discovered.len()
        invariant
            i <= discovered.len(),
            forall|j: int| 0 <= j < i ==> !(#[trigger] discovered@[j]).is_primary,
        decreases discovered.len() - i,
    {
        if discovered[i].is_primary {
            return Ok(());
        }
        i = i + 1;
    }
    Err(other("sender identity discovery omitted the primary address"))
}

/// Whether no account has an address twice.
pub open spec fn unique_addresses(all: Seq<Identity>) -> bool {
    forall|i: int, j: int|
        0 <= i < j < all.len() ==> !((#[trigger] all[i]).account_id == (
        #[trigger] all[j]).account_id && all[i].email == all[j].email)
}

/// Whether no address is given twice.
pub open spec fn distinct_addresses(list: Seq<Identity>) -> bool {
    forall|i: int, j: int|
        0 <= i < j < list.len() ==> (#[trigger] list[i]).email != (#[trigger] list[j]).email
}

fn has_distinct_addresses(list: &Vec<SenderIdentity>) -> (r: bool)
    ensures
        r == distinct_addresses(identities(list@)),
{
    let ghost all = identities(list@);
    let mut j: usize = 0;
    while j < list.len()
        invariant
            j <= list.len(),
            all == identities(list@),
            forall|a: int, b: int|
                0 <= a < b < j ==> (#[trigger] all[a]).email != (#[trigger] all[b]).email,
        decreases list.len() - j,
    {
        let mut i: usize = 0;
        while i < j
            invariant
                i <= j < list.len(),
                all == identities(list@),
                forall|a: int| 0 <= a < i ==> (#[trigger] all[a]).email != all[j as int].email,
            decreases j - i,
        {
            if same(list[i].email.as_str(), list[j].email.as_str()) {
                proof {
                    assert(all[i as int].email == all[j as int].email);
                }
                return false;
            }
            i = i + 1;
        }
        j = j + 1;
    }
    true
}

/// The identities after those of one account gave way to the ones that were discovered.
pub open spec fn replaced(all: Seq<Identity>, account_id: i64, discovered: Seq<Identity>) -> Seq<
    Identity,
> {
    all.filter(|i: Identity| i.account_id != account_id) + discovered.map_values(
        |i: Identity| Identity { account_id, ..i },
    )
}

/// An account never has an address twice, whether its own address is seen to or what its provider
/// discovered replaces what was known.
pub proof fn addresses_stay_unique(
    all: Seq<Identity>,
    account_id: i64,
    email: Seq<char>,
    display_name: Option<Seq<char>>,
    now: i64,
    discovered: Seq<Identity>,
)
    requires
        unique_addresses(all),
        distinct_addresses(discovered),
    ensures
        unique_addresses(with_primary(all, account_id, email, display_name, now)),
        unique_addresses(replaced(all, account_id, discovered)),
{
    place_is_found(all, account_id, email);
    let others = |i: Identity| i.account_id != account_id;
    filter_stays_unique(all, others);
    let kept = all.filter(others);
    let whole = replaced(all, account_id, discovered);
    assert forall|i: int, j: int| 0 <= i < j < whole.len() implies !((
    #[trigger] whole[i]).account_id == (#[trigger] whole[j]).account_id && whole[i].email
        == whole[j].email) by {
        if j < kept.len() {
            assert(whole[i] == kept[i] && whole[j] == kept[j]);
        } else if i < kept.len() {
            crate::sorting::kept_was_there(all, others, i);
        } else {
            assert(discovered[i - kept.len()].email != discovered[j - kept.len()].email);
        }
    }
}

proof fn place_is_found(all: Seq<Identity>, account_id: i64, email: Seq<char>)
    ensures
        ({
            let k = place(all, account_id, email);
            &&& 0 <= k <= all.len()
            &&& k < all.len() ==> all[k].account_id == account_id && all[k].email == email
            &&& forall|j: int|
                0 <= j < k ==> !((#[trigger] all[j]).account_id == account_id && all[j].email
                    == email)
        }),
    decreases all.len(),
{
    if all.len() > 0 && !(all[0].account_id == account_id && all[0].email == email) {
        let rest = all.skip(1);
        place_is_found(rest, account_id, email);
        assert forall|j: int| 0 <= j < place(all, account_id, email) implies !((
        #[trigger] all[j]).account_id == account_id && all[j].email == email) by {
            if j > 0 {
                assert(rest[j - 1] == all[j]);
            }
        }
    }
}

proof fn filter_stays_unique(all: Seq<Identity>, p: spec_fn(Identity) -> bool)
    requires
        unique_addresses(all),
    ensures
        unique_addresses(all.filter(p)),
    decreases all.len(),
{
    reveal(Seq::filter);
    if all.len() > 0 {
        let head = all.drop_last();
        assert forall|i: int, j: int| 0 <= i < j < head.len() implies !((
        #[trigger] head[i]).account_id == (#[trigger] head[j]).account_id && head[i].email
            == head[j].email) by {
            assert(all[i] == head[i] && all[j] == head[j]);
        }
        filter_stays_unique(head, p);
        let kept = head.filter(p);
        let whole = all.filter(p);
        assert forall|i: int, j: int| 0 <= i < j < whole.len() implies !((
        #[trigger] whole[i]).account_id == (#[trigger] whole[j]).account_id && whole[i].email
            == whole[j].email) by {
            assert(whole[i] == kept[i]);
            if j < kept.len() {
                assert(whole[j] == kept[j]);
            } else {
                crate::sorting::kept_was_there(head, p, i);
                let k = choose|k: int| 0 <= k < head.len() && head[k] == kept[i];
                assert(all[k] == kept[i]);
                assert(all[all.len() - 1] == whole[j]);
            }
        }
    }
}

/// Replace the identities of an account by those that its provider discovered. The caller only
/// supplies values parsed from an authenticated provider endpoint. Where an address was discovered
/// twice nothing is replaced, as the store keeps each address of an account once.
pub fn replace(
    all: Vec<SenderIdentity>,
    account_id: i64,
    discovered: Vec<SenderIdentity>,
) -> (r: Result<Vec<SenderIdentity>>)
    ensures
        if !exists|i: int| 0 <= i < discovered@.len() && (#[trigger] discovered@[i]).is_primary {
            fails(r, "sender identity discovery omitted the primary address"@)
        } else if !distinct_addresses(identities(discovered@)) {
            r is Err && r->Err_0 is Db && r->Err_0->Db_0@
                == "UNIQUE constraint failed: sender_identities.account_id, sender_identities.email"@
        } else {
            r is Ok && identities(r->Ok_0@) == replaced(
                identities(all@),
                account_id,
                identities(discovered@),
            )
        },
{
    match check_discovered(&discovered) {
        Ok(_) => {},
        Err(e) => {
            return Err(e);
        },
    }
    if !has_distinct_addresses(&discovered) {
        return Err(
            CoreError::Db(
                lit(
                    "UNIQUE constraint failed: sender_identities.account_id, sender_identities.email",
                ),
            ),
        );
    }
    let ghost known = identities(all@);
    let ghost fresh = identities(discovered@);
    let ghost start = all@;
    let ghost others = |i: Identity| i.account_id != account_id;
    let mut out: Vec<SenderIdentity> = Vec::new();
    proof {
        assert(known.take(0) =~= Seq::<Identity>::empty());
        assert(identities(out@) =~= Seq::<Identity>::empty());
        reveal(Seq::filter);
    }
    for identity in it: all
        invariant
            it.seq() == start,
            known == identities(start),
            others == (|i: Identity| i.account_id != account_id),
            identities(out@) == known.take(it.index()).filter(others),
    {
        let ghost held = out@;
        proof {
            assert(known.take(it.index() + 1) =~= known.take(it.index()).push(identity@));
            crate::text::filter_push(known.take(it.index()), identity@, others);
        }
        if identity.account_id != account_id {
            out.push(identity);
            proof {
                assert(identities(out@) =~= identities(held).push(identity@));
            }
        }
    }
    proof {
        assert(known.take(known.len() as int) =~= known);
    }
    let ghost kept = identities(out@);
    let ghost found = discovered@;
    let ghost owned = |i: Identity| Identity { account_id, ..i };
    proof {
        assert(kept + fresh.take(0).map_values(owned) =~= kept);
    }
    for identity in it: discovered
        invariant
            it.seq() == found,
            fresh == identities(found),
            owned == (|i: Identity| Identity { account_id, ..i }),
            identities(out@) == kept + fresh.take(it.index()).map_values(owned),
    {
        let ghost held = out@;
        let next = SenderIdentity {
            account_id,
            email: identity.email,
            display_name: identity.display_name,
            reply_to_email: identity.reply_to_email,
            is_primary: identity.is_primary,
            is_provider_default: identity.is_provider_default,
            verification_status: identity.verification_status,
            last_synced_at: identity.last_synced_at,
        };
        out.push(next);
        proof {
            assert(fresh[it.index()] == identity@);
            assert(next@ == owned(identity@));
            assert(fresh.take(it.index() + 1) =~= fresh.take(it.index()).push(identity@));
            assert(identities(out@) =~= identities(held).push(next@));
            assert(identities(out@) =~= kept + fresh.take(it.index() + 1).map_values(owned));
        }
    }
    proof {
        assert(fresh.take(fresh.len() as int) =~= fresh);
    }
    Ok(out)
}

/// Whether an account may send from an identity.
pub open spec fn authorized(i: Identity, account_id: i64) -> bool {
    i.account_id == account_id && (i.is_primary || i.verification_status == "accepted"@)
}

fn is_authorized(i: &SenderIdentity, account_id: i64) -> (r: bool)
    ensures
        r == authorized(i@, account_id),
{
    i.account_id == account_id && (i.is_primary || same(i.verification_status.as_str(), "accepted"))
}

/// The addresses of the identities that an account may send from, their ASCII letters in lower
/// case.
pub open spec fn own_addresses_of(all: Seq<Identity>, account_id: i64) -> Seq<Seq<char>>
    decreases all.len(),
{
    if all.len() == 0 {
        Seq::empty()
    } else {
        let before = own_addresses_of(all.drop_last(), account_id);
        if authorized(all.last(), account_id) {
            before.push(all.last().email.map_values(|c: char| ascii_lower(c)))
        } else {
            before
        }
    }
}

/// The sender's own addresses, by which recipients are told apart from the sender.
pub fn own_addresses(all: &Vec<SenderIdentity>, account_id: i64) -> (r: Vec<String>)
    ensures
        texts(r@) == own_addresses_of(identities(all@), account_id),
{
    let ghost known = identities(all@);
    let mut out: Vec<String> = Vec::new();
    let mut i: usize = 0;
    proof {
        assert(known.take(0) =~= Seq::<Identity>::empty());
        assert(texts(out@) =~= Seq::<Seq<char>>::empty());
    }
    while i < all.len()
        invariant
            i <= all.len(),
            known == identities(all@),
            texts(out@) == own_addresses_of(known.take(i as int), account_id),
        decreases all.len() - i,
    {
        proof {
            assert(known.take(i + 1).drop_last() =~= known.take(i as int));
            assert(known.take(i + 1).last() == all@[i as int]@);
        }
        if is_authorized(&all[i], account_id) {
            let ghost before = texts(out@);
            let address = ascii_lowercase(all[i].email.as_str());
            out.push(address);
            proof {
                assert(texts(out@) =~= before.push(address@));
            }
        }
        i = i + 1;
    }
    proof {
        assert(known.take(known.len() as int) =~= known);
    }
    out
}

/// The place of the first identity of an account with that address that it may send from.
pub fn get_verified(all: &Vec<SenderIdentity>, account_id: i64, email: &str) -> (r: Option<usize>)
    ensures
        match r {
            Some(k) => k < all@.len() && authorized(all@[k as int]@, account_id) && same_ascii(
                all@[k as int].email@,
                email@,
            ) && forall|j: int|
                0 <= j < k ==> !(authorized((#[trigger] all@[j])@, account_id) && same_ascii(
                    all@[j].email@,
                    email@,
                )),
            None => forall|j: int|
                0 <= j < all@.len() ==> !(authorized((#[trigger] all@[j])@, account_id)
                    && same_ascii(all@[j].email@, email@)),
        },
{
    let mut i: usize = 0;
    while i < all.len()
        invariant
            i <= all.len(),
            forall|j: int|
                0 <= j < i ==> !(authorized((#[trigger] all@[j])@, account_id) && same_ascii(
                    all@[j].email@,
                    email@,
                )),
        decreases all.len() - i,
    {
        if is_authorized(&all[i], account_id) && is_same_ascii(all[i].email.as_str(), email) {
            return Some(i);
        }
        i = i + 1;
    }
    None
}

/// Whether an identity is the one that an account sends from where nothing else was chosen: it
/// may, and nothing that it may send from is offered before it.
pub open spec fn is_first_choice(all: Seq<Identity>, account_id: i64, k: int) -> bool {
    0 <= k < all.len() && authorized(all[k], account_id) && forall|j: int|
        0 <= j < all.len() && authorized(#[trigger] all[j], account_id) ==> !ranks_before(
            all[j],
            all[k],
        )
}

/// Whether an address was chosen that the account may send from.
pub open spec fn chosen(all: Seq<Identity>, account_id: i64, email: Option<Seq<char>>) -> bool {
    email is Some && exists|j: int|
        0 <= j < all.len() && authorized(#[trigger] all[j], account_id) && same_ascii(
            all[j].email,
            email->0,
        )
}

/// The place of the identity that an account sends from: the one that was chosen, where it may
/// send from it, or else the first that is offered.
pub fn resolve_default(all: &Vec<SenderIdentity>, account_id: i64, default_sender_email: Option<
    &str,
>) -> (r: Result<usize>)
    ensures
        ({
            let known = identities(all@);
            if chosen(known, account_id, opt_str(default_sender_email)) {
                r is Ok && r->Ok_0 < all@.len() && authorized(known[r->Ok_0 as int], account_id)
                    && same_ascii(known[r->Ok_0 as int].email, default_sender_email->0@)
            } else if exists|j: int|
                0 <= j < known.len() && authorized(#[trigger] known[j], account_id) {
                r is Ok && is_first_choice(known, account_id, r->Ok_0 as int)
            } else {
                fails(r, "account has no authorized sender identity"@)
            }
        }),
{
    let ghost known = identities(all@);
    match default_sender_email {
        Some(email) => match get_verified(all, account_id, email) {
            Some(k) => {
                proof {
                    assert(authorized(known[k as int], account_id) && same_ascii(
                        known[k as int].email,
                        email@,
                    ));
                }
                return Ok(k);
            },
            None => {
                proof {
                    assert forall|j: int| 0 <= j < known.len() implies !(authorized(
                        #[trigger] known[j],
                        account_id,
                    ) && same_ascii(known[j].email, email@)) by {
                        assert(known[j] == all@[j]@);
                    }
                }
            },
        },
        None => {},
    }
    let mut best: Option<usize> = None;
    let mut i: usize = 0;
    while i < all.len()
        invariant
            i <= all.len(),
            known == identities(all@),
            match best {
                Some(k) => k < i && authorized(known[k as int], account_id) && forall|j: int|
                    0 <= j < i && authorized(#[trigger] known[j], account_id) ==> !ranks_before(
                        known[j],
                        known[k as int],
                    ),
                None => forall|j: int|
                    0 <= j < i ==> !authorized(#[trigger] known[j], account_id),
            },
        decreases all.len() - i,
    {
        proof {
            assert(known[i as int] == all@[i as int]@);
            ranking_is_an_order();
        }
        if is_authorized(&all[i], account_id) {
            match best {
                Some(k) => {
                    proof {
                        assert(known[k as int] == all@[k as int]@);
                    }
                    if is_ranked_before(&all[i], &all[k]) {
                        proof {
                            assert forall|j: int|
                                0 <= j <= i && authorized(
                                    #[trigger] known[j],
                                    account_id,
                                ) implies !ranks_before(known[j], known[i as int]) by {
                                if j < i {
                                    assert(!ranks_before(known[j], known[k as int]));
                                }
                            }
                        }
                        best = Some(i);
                    }
                },
                None => {
                    best = Some(i);
                },
            }
        }
        i = i + 1;
    }
    match best {
        Some(k) => {
            proof {
                assert(is_first_choice(known, account_id, k as int));
            }
            Ok(k)
        },
        None => Err(other("account has no authorized sender identity")),
    }
}

proof fn ranking_is_an_order()
    ensures
        forall|a: Identity| !#[trigger] ranks_before(a, a),
        forall|a: Identity, b: Identity, c: Identity|
            #![trigger ranks_before(a, b), ranks_before(b, c)]
            ranks_before(a, b) && ranks_before(b, c) ==> ranks_before(a, c),
{
    assert forall|a: Identity| !#[trigger] ranks_before(a, a) by {
        crate::text::text_order_is_total(lowered(a.email), lowered(a.email), lowered(a.email));
    }
    assert forall|a: Identity, b: Identity, c: Identity|
        #![trigger ranks_before(a, b), ranks_before(b, c)]
        ranks_before(a, b) && ranks_before(b, c) implies ranks_before(a, c) by {
        crate::text::text_order_is_total(lowered(a.email), lowered(b.email), lowered(c.email));
    }
}

/// An account that has its own address among its identities always has one to send from.
pub proof fn every_account_can_send(
    all: Seq<Identity>,
    account_id: i64,
    email: Seq<char>,
    display_name: Option<Seq<char>>,
    now: i64,
)
    ensures
        exists|j: int|
            0 <= j < with_primary(all, account_id, email, display_name, now).len() && authorized(
                #[trigger] with_primary(all, account_id, email, display_name, now)[j],
                account_id,
            ),
{
    let k = place(all, account_id, email);
    place_finds(all, account_id, email);
    let after = with_primary(all, account_id, email, display_name, now);
    assert(authorized(after[k], account_id));
}

proof fn place_finds(all: Seq<Identity>, account_id: i64, email: Seq<char>)
    ensures
        0 <= place(all, account_id, email) <= all.len(),
        place(all, account_id, email) < all.len() ==> {
            let found = all[place(all, account_id, email)];
            found.account_id == account_id && found.email == email
        },
    decreases all.len(),
{
    if all.len() > 0 && !(all[0].account_id == account_id && all[0].email == email) {
        place_finds(all.skip(1), account_id, email);
    }
}

} // verus!
