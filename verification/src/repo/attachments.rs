//! The attachments of a message: how what a message is found to hold meets what is stored.

use crate::text::{lit, opt, opt_str, same};
use vstd::prelude::*;
use vstd::string::*;

verus! {

/// An attachment that was found in a message.
#[derive(Debug)]
pub struct NewAttachment<'a> {
    pub message_id: i64,
    pub part_id: Option<&'a str>,
    pub filename: Option<&'a str>,
    pub mime_type: Option<&'a str>,
    pub size: Option<i64>,
    pub content_id: Option<&'a str>,
    pub is_inline: bool,
}

/// The model of a [`NewAttachment`].
pub struct Found {
    pub message_id: i64,
    pub part_id: Option<Seq<char>>,
    pub filename: Option<Seq<char>>,
    pub mime_type: Option<Seq<char>>,
    pub size: Option<i64>,
    pub content_id: Option<Seq<char>>,
    pub is_inline: bool,
}

impl<'a> View for NewAttachment<'a> {
    type V = Found;

    open spec fn view(&self) -> Found {
        Found {
            message_id: self.message_id,
            part_id: opt_str(self.part_id),
            filename: opt_str(self.filename),
            mime_type: opt_str(self.mime_type),
            size: self.size,
            content_id: opt_str(self.content_id),
            is_inline: self.is_inline,
        }
    }
}

/// An attachment as it is stored.
#[derive(Debug)]
pub struct AttachmentRow {
    pub id: i64,
    pub part_id: Option<String>,
    pub filename: Option<String>,
    pub mime_type: Option<String>,
    pub size: Option<i64>,
    pub content_id: Option<String>,
    pub is_inline: bool,
    pub has_file: bool,
    pub imap_section: Option<String>,
}

/// The model of an [`AttachmentRow`].
pub struct Part {
    pub id: i64,
    pub part_id: Option<Seq<char>>,
    pub filename: Option<Seq<char>>,
    pub mime_type: Option<Seq<char>>,
    pub size: Option<i64>,
    pub content_id: Option<Seq<char>>,
    pub is_inline: bool,
    pub has_file: bool,
    pub section: Option<Seq<char>>,
}

impl View for AttachmentRow {
    type V = Part;

    open spec fn view(&self) -> Part {
        Part {
            id: self.id,
            part_id: opt(self.part_id),
            filename: opt(self.filename),
            mime_type: opt(self.mime_type),
            size: self.size,
            content_id: opt(self.content_id),
            is_inline: self.is_inline,
            has_file: self.has_file,
            section: opt(self.imap_section),
        }
    }
}

/// The models of stored attachments.
pub open spec fn parts(v: Seq<AttachmentRow>) -> Seq<Part> {
    v.map_values(|a: AttachmentRow| a@)
}

/// The models of attachments that were found.
pub open spec fn founds(v: Seq<NewAttachment>) -> Seq<Found> {
    v.map_values(|a: NewAttachment| a@)
}

/// How strongly a stored attachment matches one that was found; the least number is the strongest.
pub open spec fn score(a: Found, item: Part) -> Option<u8> {
    if a.part_id is Some && item.part_id == a.part_id {
        Some(0u8)
    } else if a.content_id is Some && item.content_id == a.content_id {
        Some(1u8)
    } else if a.filename is Some && item.filename == a.filename && (a.mime_type is None
        || item.mime_type == a.mime_type) {
        Some(2u8)
    } else if a.filename is None && a.content_id is None && item.filename is None
        && item.content_id is None && item.mime_type == a.mime_type && item.size == a.size {
        Some(3u8)
    } else {
        None
    }
}

fn same_opt(a: &Option<String>, b: Option<&str>) -> (r: bool)
    ensures
        r == (opt(*a) == opt_str(b)),
{
    match (a, b) {
        (Some(x), Some(y)) => same(x.as_str(), y),
        (None, None) => true,
        _ => false,
    }
}

fn score_of(a: &NewAttachment, item: &AttachmentRow) -> (r: Option<u8>)
    ensures
        r == score(a@, item@),
{
    let same_size = match (item.size, a.size) {
        (Some(x), Some(y)) => x == y,
        (None, None) => true,
        _ => false,
    };
    if a.part_id.is_some() && same_opt(&item.part_id, a.part_id) {
        Some(0)
    } else if a.content_id.is_some() && same_opt(&item.content_id, a.content_id) {
        Some(1)
    } else if a.filename.is_some() && same_opt(&item.filename, a.filename) && (
    a.mime_type.is_none() || same_opt(&item.mime_type, a.mime_type)) {
        Some(2)
    } else if a.filename.is_none() && a.content_id.is_none() && item.filename.is_none()
        && item.content_id.is_none() && same_opt(&item.mime_type, a.mime_type) && same_size {
        Some(3)
    } else {
        None
    }
}

/// Whether one match goes before another: the stronger one, or of two as strong that of the older
/// row.
pub open spec fn goes_before(x: (u8, i64), y: (u8, i64)) -> bool {
    x.0 < y.0 || (x.0 == y.0 && x.1 < y.1)
}

/// The strongest match of an attachment among the rows that nothing claimed yet.
pub open spec fn best(items: Seq<Part>, claimed: Seq<Option<i64>>, a: Found) -> Option<(u8, i64)>
    decreases items.len(),
{
    if items.len() == 0 {
        None
    } else {
        let before = best(items.drop_last(), claimed, a);
        let item = items.last();
        match score(a, item) {
            Some(s) if !claimed.contains(Some(item.id)) && (before is None || goes_before(
                (s, item.id),
                before->0,
            )) => Some((s, item.id)),
            _ => before,
        }
    }
}

/// The rows that attachments claim, one after the other; an attachment without a match claims none.
pub open spec fn claims(items: Seq<Part>, atts: Seq<Found>) -> Seq<Option<i64>>
    decreases atts.len(),
{
    if atts.len() == 0 {
        Seq::empty()
    } else {
        let before = claims(items, atts.drop_last());
        before.push(
            match best(items, before, atts.last()) {
                Some((_, id)) => Some(id),
                None => None,
            },
        )
    }
}

/// Which attachment claimed a row.
pub open spec fn claimant(claimed: Seq<Option<i64>>, id: i64) -> Option<int>
    decreases claimed.len(),
{
    if claimed.len() == 0 {
        None
    } else {
        match claimant(claimed.drop_last(), id) {
            Some(k) => Some(k),
            None => if claimed.last() == Some(id) {
                Some(claimed.len() - 1)
            } else {
                None
            },
        }
    }
}

/// A row that describes another attachment.
pub open spec fn described(item: Part, a: Found) -> Part {
    Part {
        part_id: a.part_id,
        filename: a.filename,
        mime_type: a.mime_type,
        size: a.size,
        content_id: a.content_id,
        is_inline: a.is_inline,
        ..item
    }
}

/// A new row.
pub open spec fn inserted(id: i64, a: Found) -> Part {
    Part {
        id,
        part_id: a.part_id,
        filename: a.filename,
        mime_type: a.mime_type,
        size: a.size,
        content_id: a.content_id,
        is_inline: a.is_inline,
        has_file: false,
        section: None,
    }
}

/// What stays of a row.
pub open spec fn kept_row(item: Part, claimed: Seq<Option<i64>>, atts: Seq<Found>) -> Option<Part> {
    match claimant(claimed, item.id) {
        Some(k) => Some(described(item, atts[k])),
        None => if item.has_file || item.section is Some {
            Some(item)
        } else {
            None
        },
    }
}

/// The rows that stay.
pub open spec fn kept_rows(items: Seq<Part>, claimed: Seq<Option<i64>>, atts: Seq<Found>) -> Seq<
    Part,
>
    decreases items.len(),
{
    if items.len() == 0 {
        Seq::empty()
    } else {
        let before = kept_rows(items.drop_last(), claimed, atts);
        match kept_row(items.last(), claimed, atts) {
            Some(item) => before.push(item),
            None => before,
        }
    }
}

/// The rows of the attachments that claimed none.
pub open spec fn new_rows(claimed: Seq<Option<i64>>, atts: Seq<Found>, next_id: int) -> Seq<Part>
    decreases atts.len(),
{
    if atts.len() == 0 {
        Seq::empty()
    } else {
        let before = new_rows(claimed.drop_last(), atts.drop_last(), next_id);
        if claimed.last() is None {
            before.push(inserted((next_id + before.len()) as i64, atts.last()))
        } else {
            before
        }
    }
}

/// The rows of a message whose attachments were found anew.
pub open spec fn replaced(items: Seq<Part>, atts: Seq<Found>, next_id: int) -> Seq<Part> {
    kept_rows(items, claims(items, atts), atts) + new_rows(claims(items, atts), atts, next_id)
}

fn is_claimed(claimed: &Vec<Option<i64>>, id: i64) -> (r: Option<usize>)
    ensures
        match r {
            Some(k) => k < claimed@.len() && claimant(claimed@, id) == Some(k as int),
            None => claimant(claimed@, id) is None,
        },
        r is Some <==> claimed@.contains(Some(id)),
{
    let mut i: usize = 0;
    proof {
        assert(claimed@.take(0) =~= Seq::<Option<i64>>::empty());
    }
    while i < claimed.len()
        invariant
            i <= claimed.len(),
            claimant(claimed@.take(i as int), id) is None,
            forall|j: int| 0 <= j < i ==> #[trigger] claimed@[j] != Some(id),
        decreases claimed.len() - i,
    {
        proof {
            assert(claimed@.take(i + 1).drop_last() =~= claimed@.take(i as int));
            assert(claimed@.take(i + 1).last() == claimed@[i as int]);
        }
        let hit = match claimed[i] {
            Some(other) => other == id,
            None => false,
        };
        if hit {
            proof {
                claimant_is_first(claimed@, id, i as int);
                assert(claimed@.contains(claimed@[i as int]));
            }
            return Some(i);
        }
        i = i + 1;
    }
    proof {
        assert(claimed@.take(claimed@.len() as int) =~= claimed@);
    }
    None
}

proof fn claimant_is_first(claimed: Seq<Option<i64>>, id: i64, k: int)
    requires
        0 <= k < claimed.len(),
        claimed[k] == Some(id),
        forall|j: int| 0 <= j < k ==> #[trigger] claimed[j] != Some(id),
    ensures
        claimant(claimed, id) == Some(k),
    decreases claimed.len(),
{
    if k < claimed.len() - 1 {
        claimant_is_first(claimed.drop_last(), id, k);
    } else {
        no_claimant(claimed.drop_last(), id);
    }
}

proof fn no_claimant(claimed: Seq<Option<i64>>, id: i64)
    requires
        forall|j: int| 0 <= j < claimed.len() ==> #[trigger] claimed[j] != Some(id),
    ensures
        claimant(claimed, id) is None,
    decreases claimed.len(),
{
    if claimed.len() > 0 {
        no_claimant(claimed.drop_last(), id);
    }
}

fn find_best(rows: &Vec<AttachmentRow>, claimed: &Vec<Option<i64>>, a: &NewAttachment) -> (r: Option<
    i64,
>)
    ensures
        r == match best(parts(rows@), claimed@, a@) {
            Some((_, id)) => Some(id),
            None => None,
        },
{
    let ghost items = parts(rows@);
    let mut found: Option<(u8, i64)> = None;
    let mut i: usize = 0;
    proof {
        assert(items.take(0) =~= Seq::<Part>::empty());
    }
    while i < rows.len()
        invariant
            i <= rows.len(),
            items == parts(rows@),
            found == best(items.take(i as int), claimed@, a@),
        decreases rows.len() - i,
    {
        let row = &rows[i];
        proof {
            assert(items.take(i + 1).drop_last() =~= items.take(i as int));
            assert(items.take(i + 1).last() == row@);
        }
        match score_of(a, row) {
            Some(s) => {
                if is_claimed(claimed, row.id).is_none() {
                    let first = match found {
                        Some((t, id)) => s < t || (s == t && row.id < id),
                        None => true,
                    };
                    if first {
                        found = Some((s, row.id));
                    }
                }
            },
            None => {},
        }
        i = i + 1;
    }
    proof {
        assert(items.take(items.len() as int) =~= items);
    }
    match found {
        Some((_, id)) => Some(id),
        None => None,
    }
}

fn own(o: Option<&str>) -> (r: Option<String>)
    ensures
        opt(r) == opt_str(o),
{
    match o {
        Some(s) => Some(lit(s)),
        None => None,
    }
}

/// Store the attachments that were found in a message. Full-message parsing uses attachment
/// indexes while BODYSTRUCTURE uses IMAP section ids, so a row is matched by the strongest
/// immutable metadata: an explicit-open fallback then destroys neither planned row IDs nor an
/// attachment file already cached on disk. Stale, uncached legacy-only descriptors go; planned
/// IMAP rows and downloaded files are intentionally retained if a quirky full parser
/// cannot match them, since losing either would break stable UI IDs/offline use. New rows get the
/// ids from `next_id` on.
pub fn replace_attachments(rows: Vec<AttachmentRow>, atts: &Vec<NewAttachment>, next_id: i64) -> (r:
    Vec<AttachmentRow>)
    requires
        next_id + atts@.len() <= i64::MAX,
    ensures
        parts(r@) == replaced(parts(rows@), founds(atts@), next_id as int),
{
    let ghost items = parts(rows@);
    let ghost all = founds(atts@);
    let mut claimed: Vec<Option<i64>> = Vec::new();
    let mut i: usize = 0;
    proof {
        assert(all.take(0) =~= Seq::<Found>::empty());
    }
    while i < atts.len()
        invariant
            i <= atts.len(),
            items == parts(rows@),
            all == founds(atts@),
            claimed@ == claims(items, all.take(i as int)),
        decreases atts.len() - i,
    {
        proof {
            assert(all.take(i + 1).drop_last() =~= all.take(i as int));
            assert(all.take(i + 1).last() == atts@[i as int]@);
        }
        let found: Option<i64> = find_best(&rows, &claimed, &atts[i]);
        claimed.push(found);
        i = i + 1;
    }
    proof {
        assert(all.take(all.len() as int) =~= all);
        claims_len(items, all);
    }
    let mut out: Vec<AttachmentRow> = Vec::new();
    proof {
        assert(items.take(0) =~= Seq::<Part>::empty());
        assert(parts(out@) =~= Seq::<Part>::empty());
    }
    let ghost before = rows@;
    for row in it: rows
        invariant
            it.seq() == before,
            items == parts(before),
            all == founds(atts@),
            claimed@ == claims(items, all),
            claimed@.len() == all.len(),
            parts(out@) == kept_rows(items.take(it.index()), claimed@, all),
    {
        let ghost held = out@;
        proof {
            assert(items.take(it.index() + 1).drop_last() =~= items.take(it.index()));
            assert(items.take(it.index() + 1).last() == row@);
        }
        match is_claimed(&claimed, row.id) {
            Some(k) => {
                let a = &atts[k];
                let next = AttachmentRow {
                    id: row.id,
                    part_id: own(a.part_id),
                    filename: own(a.filename),
                    mime_type: own(a.mime_type),
                    size: a.size,
                    content_id: own(a.content_id),
                    is_inline: a.is_inline,
                    has_file: row.has_file,
                    imap_section: row.imap_section,
                };
                proof {
                    assert(all[k as int] == a@);
                    assert(next@ == described(row@, a@));
                }
                out.push(next);
                proof {
                    assert(parts(out@) =~= parts(held).push(next@));
                }
            },
            None => {
                if row.has_file || row.imap_section.is_some() {
                    out.push(row);
                    proof {
                        assert(parts(out@) =~= parts(held).push(row@));
                    }
                }
            },
        }
    }
    proof {
        assert(items.take(items.len() as int) =~= items);
        assert(claimed@.take(0) =~= Seq::<Option<i64>>::empty());
    }
    let ghost stayed = parts(out@);
    let mut id: i64 = next_id;
    let mut j: usize = 0;
    proof {
        assert(stayed + new_rows(claimed@.take(0), all.take(0), next_id as int) =~= stayed);
    }
    while j < atts.len()
        invariant
            j <= atts.len(),
            all == founds(atts@),
            claimed@.len() == all.len(),
            next_id + atts@.len() <= i64::MAX,
            id == next_id + new_rows(
                claimed@.take(j as int),
                all.take(j as int),
                next_id as int,
            ).len(),
            id <= next_id + j,
            parts(out@) == stayed + new_rows(
                claimed@.take(j as int),
                all.take(j as int),
                next_id as int,
            ),
        decreases atts.len() - j,
    {
        let ghost held = out@;
        proof {
            assert(all.take(j + 1).drop_last() =~= all.take(j as int));
            assert(all.take(j + 1).last() == atts@[j as int]@);
            assert(claimed@.take(j + 1).drop_last() =~= claimed@.take(j as int));
            assert(claimed@.take(j + 1).last() == claimed@[j as int]);
        }
        if claimed[j].is_none() {
            let a = &atts[j];
            let next = AttachmentRow {
                id,
                part_id: own(a.part_id),
                filename: own(a.filename),
                mime_type: own(a.mime_type),
                size: a.size,
                content_id: own(a.content_id),
                is_inline: a.is_inline,
                has_file: false,
                imap_section: None,
            };
            proof {
                assert(next@ == inserted(id, a@));
            }
            out.push(next);
            proof {
                assert(parts(out@) =~= parts(held).push(next@));
            }
            id = id + 1;
        }
        j = j + 1;
    }
    proof {
        assert(all.take(all.len() as int) =~= all);
        assert(claimed@.take(all.len() as int) =~= claimed@);
    }
    out
}

proof fn claims_len(items: Seq<Part>, atts: Seq<Found>)
    ensures
        claims(items, atts).len() == atts.len(),
    decreases atts.len(),
{
    if atts.len() > 0 {
        claims_len(items, atts.drop_last());
    }
}

/// The match of an attachment is a row that matches it and that nothing claimed yet, and no such
/// row matches it more strongly; none is found only where none matches.
pub proof fn matches_are_the_strongest(items: Seq<Part>, claimed: Seq<Option<i64>>, a: Found)
    ensures
        match best(items, claimed, a) {
            Some(found) => !claimed.contains(Some(found.1)) && exists|i: int|
                0 <= i < items.len() && (#[trigger] items[i]).id == found.1 && score(a, items[i])
                    == Some(found.0),
            None => true,
        },
        forall|i: int|
            0 <= i < items.len() && !claimed.contains(Some((#[trigger] items[i]).id)) && score(
                a,
                items[i],
            ) is Some ==> best(items, claimed, a) is Some && !goes_before(
                (score(a, items[i])->0, items[i].id),
                best(items, claimed, a)->0,
            ),
    decreases items.len(),
{
    if items.len() > 0 {
        let head = items.drop_last();
        matches_are_the_strongest(head, claimed, a);
        let found = best(items, claimed, a);
        let before = best(head, claimed, a);
        if found == before && before is Some {
            let k = choose|i: int|
                0 <= i < head.len() && (#[trigger] head[i]).id == (before->0).1 && score(a, head[i])
                    == Some((before->0).0);
            assert(items[k] == head[k]);
        } else if found is Some {
            let last = items.len() - 1;
            assert(items[last].id == (found->0).1);
        }
        assert forall|i: int|
            0 <= i < items.len() && !claimed.contains(Some((#[trigger] items[i]).id)) && score(
                a,
                items[i],
            ) is Some implies found is Some && !goes_before(
            (score(a, items[i])->0, items[i].id),
            found->0,
        ) by {
            if i < head.len() {
                assert(head[i] == items[i]);
            }
        }
    }
}

/// No stored attachment is claimed twice.
pub proof fn no_attachment_is_claimed_twice(items: Seq<Part>, atts: Seq<Found>)
    ensures
        claims(items, atts).len() == atts.len(),
        forall|i: int, j: int|
            0 <= i < j < atts.len() && (#[trigger] claims(items, atts)[i]) is Some ==> claims(
                items,
                atts,
            )[i] != #[trigger] claims(items, atts)[j],
    decreases atts.len(),
{
    claims_len(items, atts);
    if atts.len() > 0 {
        let before = claims(items, atts.drop_last());
        let all = claims(items, atts);
        no_attachment_is_claimed_twice(items, atts.drop_last());
        matches_are_the_strongest(items, before, atts.last());
        assert forall|i: int, j: int| 0 <= i < j < atts.len() && (#[trigger] all[i]) is Some implies all[i]
            != #[trigger] all[j] by {
            assert(all[i] == before[i]);
            if j < before.len() {
                assert(all[j] == before[j]);
            } else {
                assert(before.contains(before[i]));
            }
        }
    }
}

/// Whatever is found in a message, a stored attachment that was planned or whose file is on disk
/// stays, under its id, with its file and its section.
pub proof fn planned_and_cached_attachments_stay(
    items: Seq<Part>,
    atts: Seq<Found>,
    next_id: int,
    i: int,
)
    requires
        0 <= i < items.len(),
        items[i].has_file || items[i].section is Some,
    ensures
        exists|k: int|
            0 <= k < replaced(items, atts, next_id).len() && {
                let after = #[trigger] replaced(items, atts, next_id)[k];
                after.id == items[i].id && after.has_file == items[i].has_file && after.section
                    == items[i].section
            },
{
    let claimed = claims(items, atts);
    let stayed = kept_rows(items, claimed, atts);
    row_stays(items, claimed, atts, i);
    let k = choose|k: int|
        0 <= k < stayed.len() && (#[trigger] stayed[k]).id == items[i].id && stayed[k].has_file
            == items[i].has_file && stayed[k].section == items[i].section;
    assert(replaced(items, atts, next_id)[k] == stayed[k]);
}

proof fn row_stays(items: Seq<Part>, claimed: Seq<Option<i64>>, atts: Seq<Found>, i: int)
    requires
        0 <= i < items.len(),
        items[i].has_file || items[i].section is Some,
    ensures
        exists|k: int|
            0 <= k < kept_rows(items, claimed, atts).len() && (#[trigger] kept_rows(
                items,
                claimed,
                atts,
            )[k]).id == items[i].id && kept_rows(items, claimed, atts)[k].has_file
                == items[i].has_file && kept_rows(items, claimed, atts)[k].section
                == items[i].section,
    decreases items.len(),
{
    let head = items.drop_last();
    let before = kept_rows(head, claimed, atts);
    let all = kept_rows(items, claimed, atts);
    if i == items.len() - 1 {
        assert(all.last().id == items[i].id);
        assert(all[before.len() as int].id == items[i].id);
    } else {
        row_stays(head, claimed, atts, i);
        let k = choose|k: int|
            0 <= k < before.len() && (#[trigger] before[k]).id == head[i].id && before[k].has_file
                == head[i].has_file && before[k].section == head[i].section;
        assert(all[k] == before[k]);
        assert(head[i] == items[i]);
    }
}

/// An attachment that the structure of a message promises.
#[derive(Debug)]
pub struct PlannedAttachment {
    pub section: String,
    pub filename: Option<String>,
    pub mime_type: String,
    pub size: u32,
    pub content_id: Option<String>,
    pub is_inline: bool,
    pub transfer_encoding: String,
}

/// The model of a [`PlannedAttachment`].
pub struct Planned {
    pub section: Seq<char>,
    pub filename: Option<Seq<char>>,
    pub mime_type: Seq<char>,
    pub size: u32,
    pub content_id: Option<Seq<char>>,
    pub is_inline: bool,
    pub transfer_encoding: Seq<char>,
}

impl View for PlannedAttachment {
    type V = Planned;

    open spec fn view(&self) -> Planned {
        Planned {
            section: self.section@,
            filename: opt(self.filename),
            mime_type: self.mime_type@,
            size: self.size,
            content_id: opt(self.content_id),
            is_inline: self.is_inline,
            transfer_encoding: self.transfer_encoding@,
        }
    }
}

/// The models of planned attachments.
pub open spec fn plans(v: Seq<PlannedAttachment>) -> Seq<Planned> {
    v.map_values(|a: PlannedAttachment| a@)
}

/// How a planned attachment is found among the stored ones.
pub enum FoundBy {
    Section,
    ContentId,
    Name,
}

/// Whether a row has what a planned attachment is found by.
pub open spec fn fits(item: Part, a: Planned, by: FoundBy) -> bool {
    match by {
        FoundBy::Section => item.section == Some(a.section),
        FoundBy::ContentId => item.section is None && a.content_id is Some && item.content_id
            == a.content_id,
        FoundBy::Name => item.section is None && a.filename is Some && item.filename == a.filename
            && (item.mime_type == Some(a.mime_type) || item.mime_type is None),
    }
}

/// The row that a planned attachment is found at: of those that fit, one whose file is on disk,
/// and of two the older.
pub open spec fn found_by(items: Seq<Part>, a: Planned, by: FoundBy) -> Option<int>
    decreases items.len(),
{
    if items.len() == 0 {
        None
    } else {
        let before = found_by(items.drop_last(), a, by);
        let item = items.last();
        if fits(item, a, by) && (before is None || !(by is Section) && ((item.has_file
            && !items[before->0].has_file) || (item.has_file == items[before->0].has_file && item.id
            < items[before->0].id))) {
            Some(items.len() - 1)
        } else {
            before
        }
    }
}

/// The row that a planned attachment adopts: that of its section, or a legacy row with its
/// Content-ID, or one with its name.
pub open spec fn adopted(items: Seq<Part>, a: Planned) -> Option<int> {
    match found_by(items, a, FoundBy::Section) {
        Some(k) => Some(k),
        None => match found_by(items, a, FoundBy::ContentId) {
            Some(k) => Some(k),
            None => found_by(items, a, FoundBy::Name),
        },
    }
}

/// A row that a planned attachment refreshed. What the plan does not say stays.
pub open spec fn refreshed(item: Part, a: Planned) -> Part {
    Part {
        section: Some(a.section),
        filename: if a.filename is Some {
            a.filename
        } else {
            item.filename
        },
        mime_type: Some(a.mime_type),
        size: Some(a.size as i64),
        content_id: if a.content_id is Some {
            a.content_id
        } else {
            item.content_id
        },
        is_inline: a.is_inline,
        ..item
    }
}

/// A new row of a planned attachment.
pub open spec fn planned_row(id: i64, a: Planned) -> Part {
    Part {
        id,
        part_id: None,
        filename: a.filename,
        mime_type: Some(a.mime_type),
        size: Some(a.size as i64),
        content_id: a.content_id,
        is_inline: a.is_inline,
        has_file: false,
        section: Some(a.section),
    }
}

/// The rows with one planned attachment among them.
pub open spec fn with_planned(items: Seq<Part>, a: Planned, next_id: i64) -> Seq<Part> {
    match adopted(items, a) {
        Some(k) => items.update(k, refreshed(items[k], a)),
        None => items.push(planned_row(next_id, a)),
    }
}

/// The id under which a planned attachment is stored.
pub open spec fn planned_id(items: Seq<Part>, a: Planned, next_id: i64) -> i64 {
    match adopted(items, a) {
        Some(k) => items[k].id,
        None => next_id,
    }
}

/// The rows, the ids and how many rows were new, of planned attachments taken up one after the
/// other.
pub open spec fn taken_up(items: Seq<Part>, all: Seq<Planned>, next_id: int) -> (
    Seq<Part>,
    Seq<i64>,
    int,
)
    decreases all.len(),
{
    if all.len() == 0 {
        (items, Seq::empty(), 0)
    } else {
        let (rows, ids, fresh) = taken_up(items, all.drop_last(), next_id);
        let id = (next_id + fresh) as i64;
        (
            with_planned(rows, all.last(), id),
            ids.push(planned_id(rows, all.last(), id)),
            if adopted(rows, all.last()) is None {
                fresh + 1
            } else {
                fresh
            },
        )
    }
}

fn does_fit(row: &AttachmentRow, a: &PlannedAttachment, by: &FoundBy) -> (r: bool)
    ensures
        r == fits(row@, a@, *by),
{
    match by {
        FoundBy::Section => match &row.imap_section {
            Some(s) => same(s.as_str(), a.section.as_str()),
            None => false,
        },
        FoundBy::ContentId => match (&a.content_id, &row.content_id) {
            (Some(x), Some(y)) => row.imap_section.is_none() && same(x.as_str(), y.as_str()),
            _ => false,
        },
        FoundBy::Name => match (&a.filename, &row.filename) {
            (Some(x), Some(y)) => row.imap_section.is_none() && same(x.as_str(), y.as_str()) && (
            match &row.mime_type {
                Some(m) => same(m.as_str(), a.mime_type.as_str()),
                None => true,
            }),
            _ => false,
        },
    }
}

fn find_by(rows: &Vec<AttachmentRow>, a: &PlannedAttachment, by: FoundBy) -> (r: Option<usize>)
    ensures
        match r {
            Some(k) => k < rows@.len() && found_by(parts(rows@), a@, by) == Some(k as int),
            None => found_by(parts(rows@), a@, by) is None,
        },
{
    let ghost items = parts(rows@);
    let mut found: Option<usize> = None;
    let mut i: usize = 0;
    proof {
        assert(items.take(0) =~= Seq::<Part>::empty());
    }
    while i < rows.len()
        invariant
            i <= rows.len(),
            items == parts(rows@),
            match found {
                Some(k) => k < i && found_by(items.take(i as int), a@, by) == Some(k as int),
                None => found_by(items.take(i as int), a@, by) is None,
            },
        decreases rows.len() - i,
    {
        let row = &rows[i];
        proof {
            assert(items.take(i + 1).drop_last() =~= items.take(i as int));
            assert(items.take(i + 1).last() == row@);
        }
        if does_fit(row, a, &by) {
            let first = match found {
                Some(k) => {
                    proof {
                        assert(items.take(i + 1)[k as int] == rows@[k as int]@);
                    }
                    match by {
                        FoundBy::Section => false,
                        _ => (row.has_file && !rows[k].has_file) || (row.has_file
                            == rows[k].has_file && row.id < rows[k].id),
                    }
                },
                None => true,
            };
            if first {
                found = Some(i);
            }
        }
        i = i + 1;
    }
    proof {
        assert(items.take(items.len() as int) =~= items);
    }
    found
}

fn adopt(rows: &Vec<AttachmentRow>, a: &PlannedAttachment) -> (r: Option<usize>)
    ensures
        match r {
            Some(k) => k < rows@.len() && adopted(parts(rows@), a@) == Some(k as int),
            None => adopted(parts(rows@), a@) is None,
        },
{
    match find_by(rows, a, FoundBy::Section) {
        Some(k) => Some(k),
        None => match find_by(rows, a, FoundBy::ContentId) {
            Some(k) => Some(k),
            None => find_by(rows, a, FoundBy::Name),
        },
    }
}

fn copy_text(o: &Option<String>) -> (r: Option<String>)
    ensures
        r == *o,
{
    match o {
        Some(s) => Some(s.clone()),
        None => None,
    }
}

fn refresh(row: &mut AttachmentRow, a: &PlannedAttachment)
    ensures
        final(row)@ == refreshed(old(row)@, a@),
{
    row.imap_section = Some(a.section.clone());
    if a.filename.is_some() {
        row.filename = copy_text(&a.filename);
    }
    row.mime_type = Some(a.mime_type.clone());
    row.size = Some(a.size as i64);
    if a.content_id.is_some() {
        row.content_id = copy_text(&a.content_id);
    }
    row.is_inline = a.is_inline;
}

/// Insert or refresh BODYSTRUCTURE attachment descriptors without replacing
/// rows. Stable IDs and already-downloaded files are therefore
/// preserved across header re-syncs and plan upgrades.
///
/// Legacy rows have no section; where possible they are adopted by
/// Content-ID, then by filename + MIME type, before a new row is inserted. New rows get the ids
/// from `next_id` on. Returns the id of each attachment.
pub fn upsert_planned_attachments(
    rows: &mut Vec<AttachmentRow>,
    attachments: &Vec<PlannedAttachment>,
    next_id: i64,
) -> (r: Vec<i64>)
    requires
        next_id + attachments@.len() <= i64::MAX,
    ensures
        ({
            let out = taken_up(parts(old(rows)@), plans(attachments@), next_id as int);
            parts(final(rows)@) == out.0 && r@ == out.1
        }),
{
    let ghost items = parts(rows@);
    let ghost all = plans(attachments@);
    let mut ids: Vec<i64> = Vec::new();
    let mut id: i64 = next_id;
    let mut i: usize = 0;
    proof {
        assert(all.take(0) =~= Seq::<Planned>::empty());
    }
    while i < attachments.len()
        invariant
            i <= attachments.len(),
            all == plans(attachments@),
            next_id + attachments@.len() <= i64::MAX,
            ({
                let out = taken_up(items, all.take(i as int), next_id as int);
                &&& parts(rows@) == out.0
                &&& ids@ == out.1
                &&& id == next_id + out.2
                &&& 0 <= out.2 <= i
            }),
        decreases attachments.len() - i,
    {
        let a = &attachments[i];
        let ghost held = rows@;
        proof {
            assert(all.take(i + 1).drop_last() =~= all.take(i as int));
            assert(all.take(i + 1).last() == a@);
        }
        match adopt(rows, a) {
            Some(k) => {
                ids.push(rows[k].id);
                refresh(&mut rows[k], a);
                proof {
                    assert(parts(rows@) =~= parts(held).update(
                        k as int,
                        refreshed(parts(held)[k as int], a@),
                    ));
                }
            },
            None => {
                let next = AttachmentRow {
                    id,
                    part_id: None,
                    filename: copy_text(&a.filename),
                    mime_type: Some(a.mime_type.clone()),
                    size: Some(a.size as i64),
                    content_id: copy_text(&a.content_id),
                    is_inline: a.is_inline,
                    has_file: false,
                    imap_section: Some(a.section.clone()),
                };
                proof {
                    assert(next@ == planned_row(id, a@));
                }
                ids.push(id);
                rows.push(next);
                proof {
                    assert(parts(rows@) =~= parts(held).push(next@));
                }
                id = id + 1;
            },
        }
        i = i + 1;
    }
    proof {
        assert(all.take(all.len() as int) =~= all);
    }
    ids
}

proof fn section_is_found_first(items: Seq<Part>, a: Planned, k: int)
    requires
        0 <= k < items.len(),
        items[k].section == Some(a.section),
        forall|j: int| 0 <= j < k ==> (#[trigger] items[j]).section != Some(a.section),
    ensures
        found_by(items, a, FoundBy::Section) == Some(k),
    decreases items.len(),
{
    if k < items.len() - 1 {
        section_is_found_first(items.drop_last(), a, k);
    } else {
        no_section_is_found(items.drop_last(), a);
    }
}

proof fn no_section_is_found(items: Seq<Part>, a: Planned)
    requires
        forall|j: int| 0 <= j < items.len() ==> (#[trigger] items[j]).section != Some(a.section),
    ensures
        found_by(items, a, FoundBy::Section) is None,
    decreases items.len(),
{
    if items.len() > 0 {
        no_section_is_found(items.drop_last(), a);
    }
}

proof fn found_by_finds(items: Seq<Part>, a: Planned, by: FoundBy)
    ensures
        match found_by(items, a, by) {
            Some(k) => 0 <= k < items.len() && fits(items[k], a, by),
            None => forall|j: int| 0 <= j < items.len() ==> !fits(#[trigger] items[j], a, by),
        },
        by is Section ==> (found_by(items, a, by) matches Some(k) ==> forall|j: int|
            0 <= j < k ==> !fits(#[trigger] items[j], a, by)),
    decreases items.len(),
{
    if items.len() > 0 {
        let head = items.drop_last();
        found_by_finds(head, a, by);
        match found_by(items, a, by) {
            Some(k) => {
                if k < head.len() {
                    assert(head[k] == items[k]);
                    assert forall|j: int| 0 <= j < k && by is Section implies !fits(
                        #[trigger] items[j],
                        a,
                        by,
                    ) by {
                        assert(head[j] == items[j]);
                    }
                } else {
                    assert forall|j: int| 0 <= j < k && by is Section implies !fits(
                        #[trigger] items[j],
                        a,
                        by,
                    ) by {
                        assert(head[j] == items[j]);
                    }
                }
            },
            None => {
                assert forall|j: int| 0 <= j < items.len() implies !fits(
                    #[trigger] items[j],
                    a,
                    by,
                ) by {
                    if j < head.len() {
                        assert(head[j] == items[j]);
                    }
                }
            },
        }
    }
}

/// The id of a planned attachment is stable: taken up once more, it is stored under the same id,
/// no row is added, and no file on disk is forgotten either time.
pub proof fn planned_ids_are_stable(items: Seq<Part>, a: Planned, next_id: i64, later_id: i64)
    ensures
        ({
            let once = with_planned(items, a, next_id);
            let id = planned_id(items, a, next_id);
            let twice = with_planned(once, a, later_id);
            &&& planned_id(once, a, later_id) == id
            &&& twice.len() == once.len()
            &&& forall|j: int|
                0 <= j < items.len() ==> (#[trigger] twice[j]).id == items[j].id && twice[j].has_file
                    == items[j].has_file
        }),
{
    let once = with_planned(items, a, next_id);
    found_by_finds(items, a, FoundBy::Section);
    found_by_finds(items, a, FoundBy::ContentId);
    found_by_finds(items, a, FoundBy::Name);
    let at = match adopted(items, a) {
        Some(k) => k,
        None => items.len() as int,
    };
    assert(once[at].section == Some(a.section));
    assert forall|j: int| 0 <= j < at implies (#[trigger] once[j]).section != Some(a.section) by {
        assert(once[j] == items[j]);
        assert(!fits(items[j], a, FoundBy::Section));
    }
    section_is_found_first(once, a, at);
}

} // verus!
