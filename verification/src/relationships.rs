//! What the relationship pass looks for after an extraction.

use vstd::prelude::*;
use crate::documents::{ExtractedEntity, ExtractionResult};
use crate::json::{member, string_value, JsonValue};
use crate::text::{push_str, views};

verus! {

/// The `value` strings of the reference-id entries, in order.
pub open spec fn reference_values_of(items: Seq<JsonValue>) -> Seq<Seq<char>>
    decreases items.len(),
{
    if items.len() == 0 {
        seq![]
    } else {
        let rest = reference_values_of(items.drop_last());
        match string_value(member(items.last(), "value"@)) {
            Some(v) => rest.push(v),
            None => rest,
        }
    }
}

/// The reference values of an extraction that other documents are searched for.
pub open spec fn extraction_references(ext: ExtractionResult) -> Seq<Seq<char>> {
    match ext.reference_ids {
        Some(JsonValue::Array(items)) => reference_values_of(items@),
        _ => seq![],
    }
}

/// The reference values in a document's `reference_ids`: the `value`
/// strings of its entries, in order; none unless it is an array.
pub open spec fn ids_references(ids: Option<JsonValue>) -> Seq<Seq<char>> {
    match ids {
        Some(JsonValue::Array(items)) => reference_values_of(items@),
        _ => seq![],
    }
}

/// The reference values in a document's `reference_ids` (see
/// [`ids_references`]).
pub fn reference_values_in(ids: &Option<JsonValue>) -> (r: Vec<String>)
    ensures
        views(r@) == ids_references(*ids),
{
    let mut out: Vec<String> = Vec::new();
    match ids {
        Some(JsonValue::Array(items)) => {
            let mut i: usize = 0;
            while i < items.len()
                invariant
                    i <= items@.len(),
                    views(out@) == reference_values_of(items@.take(i as int)),
                decreases items@.len() - i,
            {
                proof {
                    assert(items@.take(i as int + 1).drop_last() =~= items@.take(i as int));
                }
                match items[i].get("value") {
                    Some(v) => match v.as_str() {
                        Some(s) => {
                            let ghost prev = views(out@);
                            out.push(s.clone());
                            assert(views(out@) =~= prev.push(s@));
                        },
                        None => {},
                    },
                    None => {},
                }
                i = i + 1;
            }
            assert(items@.take(items@.len() as int) =~= items@);
        },
        _ => {},
    }
    out
}

/// The reference values of an extraction (see [`extraction_references`]).
pub fn reference_values(ext: &ExtractionResult) -> (r: Vec<String>)
    ensures
        views(r@) == extraction_references(*ext),
{
    reference_values_in(&ext.reference_ids)
}

/// The `LIKE` pattern that finds a reference value inside another
/// document's reference ids.
pub fn reference_pattern(value: &str) -> (r: String)
    ensures
        r@ == seq!['%'] + value@ + seq!['%'],
{
    let mut r = "%".to_string();
    push_str(&mut r, value);
    push_str(&mut r, "%");
    proof {
        reveal_strlit("%");
    }
    r
}

/// One step of the relationship pass, in the order the pass takes them.
#[derive(Debug)]
pub enum RelationStep {
    /// Link the document to every other document whose reference ids contain
    /// this value.
    MatchReference { value: String },
    /// Upsert this entity and link the document to it in this role.
    LinkEntity { entity_type: String, value: String, role: String },
    /// Look at the latest complete document of this sender, and link to it
    /// as [`followup_link`] decides.
    FollowUp { sender: String },
}

/// The view of a relationship step.
pub enum RelationStepView {
    MatchReference(Seq<char>),
    LinkEntity(Seq<char>, Seq<char>, Seq<char>),
    FollowUp(Seq<char>),
}

impl View for RelationStep {
    type V = RelationStepView;

    open spec fn view(&self) -> RelationStepView {
        match self {
            RelationStep::MatchReference { value } => RelationStepView::MatchReference(value@),
            RelationStep::LinkEntity { entity_type, value, role } => RelationStepView::LinkEntity(
                entity_type@,
                value@,
                role@,
            ),
            RelationStep::FollowUp { sender } => RelationStepView::FollowUp(sender@),
        }
    }
}

pub open spec fn step_views(v: Seq<RelationStep>) -> Seq<RelationStepView> {
    Seq::new(v.len(), |i: int| v[i]@)
}

pub open spec fn entity_link(e: ExtractedEntity) -> RelationStepView {
    RelationStepView::LinkEntity(e.entity_type@, e.value@, e.role@)
}

/// The relationship pass of an extraction: first every reference value is
/// matched, then every entity is linked, then, when the sender is known, the
/// follow-up of the same sender is looked for.
pub open spec fn relation_plan(ext: ExtractionResult) -> Seq<RelationStepView> {
    let refs = extraction_references(ext);
    let ents = ext.entities@;
    Seq::new(refs.len(), |i: int| RelationStepView::MatchReference(refs[i]))
        + Seq::new(ents.len(), |i: int| entity_link(ents[i]))
        + match ext.sender_normalized {
            Some(s) => seq![RelationStepView::FollowUp(s@)],
            None => seq![],
        }
}

/// The steps of the relationship pass of an extraction (see
/// [`relation_plan`]).
pub fn relationship_plan(ext: &ExtractionResult) -> (r: Vec<RelationStep>)
    ensures
        step_views(r@) == relation_plan(*ext),
{
    let refs = reference_values(ext);
    let mut out: Vec<RelationStep> = Vec::new();
    let mut i: usize = 0;
    while i < refs.len()
        invariant
            i <= refs@.len(),
            views(refs@) == extraction_references(*ext),
            out@.len() == i,
            step_views(out@) == Seq::new(i as nat, |k: int| RelationStepView::MatchReference(views(refs@)[k])),
        decreases refs@.len() - i,
    {
        let ghost prev = out@;
        out.push(RelationStep::MatchReference { value: refs[i].clone() });
        proof {
            let want = Seq::new((i + 1) as nat, |k: int| RelationStepView::MatchReference(views(refs@)[k]));
            assert forall|k: int| 0 <= k < i + 1 implies step_views(out@)[k] == want[k] by {
                if k < i {
                    assert(out@[k] == prev[k]);
                    assert(step_views(prev)[k] == prev[k]@);
                }
            }
            assert(step_views(out@) =~= want);
        }
        i = i + 1;
    }
    let ghost after_refs = step_views(out@);
    assert(after_refs.len() == out@.len());
    let mut j: usize = 0;
    while j < ext.entities.len()
        invariant
            j <= ext.entities@.len(),
            out@.len() == after_refs.len() + j,
            step_views(out@) == after_refs + Seq::new(j as nat, |k: int| entity_link(ext.entities@[k])),
        decreases ext.entities@.len() - j,
    {
        let e = &ext.entities[j];
        let ghost prev = out@;
        out.push(RelationStep::LinkEntity {
            entity_type: e.entity_type.clone(),
            value: e.value.clone(),
            role: e.role.clone(),
        });
        proof {
            let want = after_refs + Seq::new((j + 1) as nat, |k: int| entity_link(ext.entities@[k]));
            assert forall|k: int| 0 <= k < out@.len() implies step_views(out@)[k] == want[k] by {
                if k < prev.len() {
                    assert(out@[k] == prev[k]);
                    assert(step_views(prev)[k] == prev[k]@);
                }
            }
            assert(step_views(out@) =~= want);
        }
        j = j + 1;
    }
    let ghost after_ents = step_views(out@);
    match &ext.sender_normalized {
        Some(s) => {
            let ghost prev = out@;
            out.push(RelationStep::FollowUp { sender: s.clone() });
            assert forall|k: int| 0 <= k < prev.len() implies step_views(out@)[k] == step_views(prev)[k] by {
                assert(out@[k] == prev[k]);
            }
            assert(step_views(out@) =~= after_ents + seq![RelationStepView::FollowUp(s@)]);
        },
        None => {
            assert(step_views(out@) =~= after_ents + seq![]);
        },
    }
    proof {
        let refs_v = extraction_references(*ext);
        assert(after_refs =~= Seq::new(refs_v.len(), |k: int| RelationStepView::MatchReference(refs_v[k])));
    }
    out
}


/// Whether `c` is an ASCII digit.
pub open spec fn is_digit(c: char) -> bool {
    '0' <= c && c <= '9'
}

/// The value of an ASCII digit.
pub open spec fn digit_value(c: char) -> int {
    c as int - 48
}

/// The number of the day `y-m-d` of the proleptic Gregorian calendar,
/// counted so that consecutive days have consecutive numbers (the civil
/// day count, taken 400 years early so that every year involved is positive).
pub open spec fn civil_day(y: int, m: int, d: int) -> int {
    let yp = y + 400 - if m <= 2 { 1int } else { 0int };
    let era = yp / 400;
    let yoe = yp - era * 400;
    let mp = if m > 2 { m - 3 } else { m + 9 };
    let doy = (153 * mp + 2) / 5 + d - 1;
    let doe = yoe * 365 + yoe / 4 - yoe / 100 + doy;
    era * 146097 + doe
}

/// The day number of a `YYYY-MM-DD` date (month 1 to 12, day 1 to 31);
/// nothing for any other text.
pub open spec fn day_number(t: Seq<char>) -> Option<int> {
    if t.len() == 10 && is_digit(t[0]) && is_digit(t[1]) && is_digit(t[2]) && is_digit(t[3])
        && t[4] == '-' && is_digit(t[5]) && is_digit(t[6]) && t[7] == '-' && is_digit(t[8])
        && is_digit(t[9]) {
        let y = digit_value(t[0]) * 1000 + digit_value(t[1]) * 100 + digit_value(t[2]) * 10
            + digit_value(t[3]);
        let m = digit_value(t[5]) * 10 + digit_value(t[6]);
        let d = digit_value(t[8]) * 10 + digit_value(t[9]);
        if 1 <= m <= 12 && 1 <= d <= 31 {
            Some(civil_day(y, m, d))
        } else {
            None
        }
    } else {
        None
    }
}

/// Whether two documents dated `a` and `b` lie at most 90 days apart; not
/// when either date is unknown or not a `YYYY-MM-DD` date.
pub open spec fn within_90_days(a: Option<Seq<char>>, b: Option<Seq<char>>) -> bool {
    match (a, b) {
        (Some(x), Some(y)) => match (day_number(x), day_number(y)) {
            (Some(p), Some(q)) => -90 <= p - q <= 90,
            _ => false,
        },
        _ => false,
    }
}

/// Whether two lists of reference values have a value in common.
pub open spec fn share_reference(a: Seq<Seq<char>>, b: Seq<Seq<char>>) -> bool {
    exists|i: int, j: int| 0 <= i < a.len() && 0 <= j < b.len() && #[trigger] a[i] == #[trigger] b[j]
}

/// The follow-up link from a new document to the latest document of its
/// sender.
#[derive(Debug)]
pub enum FollowUpLink {
    /// No link.
    NoLink,
    /// A `follows_up` link of confidence 0.6.
    Weak,
    /// A `follows_up` link of confidence 0.95.
    Strong,
}

/// The follow-up rule: a link when the two documents are dated at most 90
/// days apart, upgraded to a strong one when they share a reference number.
pub open spec fn followup_of(
    new_date: Option<Seq<char>>,
    target_date: Option<Seq<char>>,
    new_refs: Seq<Seq<char>>,
    target_refs: Seq<Seq<char>>,
) -> FollowUpLink {
    if !within_90_days(new_date, target_date) {
        FollowUpLink::NoLink
    } else if share_reference(new_refs, target_refs) {
        FollowUpLink::Strong
    } else {
        FollowUpLink::Weak
    }
}

fn digit_of(c: char) -> (r: i64)
    requires
        is_digit(c),
    ensures
        r == digit_value(c),
        0 <= r <= 9,
{
    (c as u32 - 48) as i64
}

/// The day number of a `YYYY-MM-DD` date (see [`day_number`]).
pub fn parse_day(t: &str) -> (r: Option<i64>)
    ensures
        r matches Some(n) ==> day_number(t@) == Some(n as int),
        r is None ==> day_number(t@) is None,
{
    let v = crate::text::chars_of(t);
    if v.len() != 10 {
        return None;
    }
    let digits_ok = '0' <= v[0] && v[0] <= '9' && '0' <= v[1] && v[1] <= '9' && '0' <= v[2]
        && v[2] <= '9' && '0' <= v[3] && v[3] <= '9' && v[4] == '-' && '0' <= v[5] && v[5] <= '9'
        && '0' <= v[6] && v[6] <= '9' && v[7] == '-' && '0' <= v[8] && v[8] <= '9' && '0' <= v[9]
        && v[9] <= '9';
    if !digits_ok {
        return None;
    }
    let y = digit_of(v[0]) * 1000 + digit_of(v[1]) * 100 + digit_of(v[2]) * 10 + digit_of(v[3]);
    let m = digit_of(v[5]) * 10 + digit_of(v[6]);
    let d = digit_of(v[8]) * 10 + digit_of(v[9]);
    if m < 1 || m > 12 || d < 1 || d > 31 {
        return None;
    }
    let yp = y + 400 - if m <= 2 { 1 } else { 0 };
    let era = yp / 400;
    let yoe = yp - era * 400;
    let mp = if m > 2 { m - 3 } else { m + 9 };
    let doy = (153 * mp + 2) / 5 + d - 1;
    let doe = yoe * 365 + yoe / 4 - yoe / 100 + doy;
    Some(era * 146097 + doe)
}

/// Whether two reference lists have a value in common (see
/// [`share_reference`]).
pub fn shares_reference(a: &Vec<String>, b: &Vec<String>) -> (r: bool)
    ensures
        r == share_reference(views(a@), views(b@)),
{
    let mut i: usize = 0;
    while i < a.len()
        invariant
            i <= a@.len(),
            forall|x: int, y: int| 0 <= x < i && 0 <= y < b@.len() ==> a@[x]@ != b@[y]@,
        decreases a@.len() - i,
    {
        let mut j: usize = 0;
        while j < b.len()
            invariant
                i < a@.len(),
                j <= b@.len(),
                forall|x: int, y: int| 0 <= x < i && 0 <= y < b@.len() ==> a@[x]@ != b@[y]@,
                forall|y: int| 0 <= y < j ==> a@[i as int]@ != b@[y]@,
            decreases b@.len() - j,
        {
            if crate::json::same_text(a[i].as_str(), b[j].as_str()) {
                assert(views(a@)[i as int] == views(b@)[j as int]);
                return true;
            }
            j = j + 1;
        }
        i = i + 1;
    }
    proof {
        if share_reference(views(a@), views(b@)) {
            let (x, y) = choose|x: int, y: int| 0 <= x < views(a@).len() && 0 <= y < views(b@).len()
                && #[trigger] views(a@)[x] == #[trigger] views(b@)[y];
            assert(a@[x]@ == views(a@)[x]);
            assert(b@[y]@ == views(b@)[y]);
        }
    }
    false
}

/// Decides the follow-up link from a new document to the latest complete
/// document of the same sender, from both documents' dates and reference
/// values (see [`followup_of`]).
pub fn followup_link(
    new_date: Option<&str>,
    target_date: Option<&str>,
    new_refs: &Vec<String>,
    target_refs: &Vec<String>,
) -> (r: FollowUpLink)
    ensures
        r == followup_of(
            crate::config::opt_str_view(new_date),
            crate::config::opt_str_view(target_date),
            views(new_refs@),
            views(target_refs@),
        ),
        within_90_days(crate::config::opt_str_view(new_date), crate::config::opt_str_view(target_date))
            <==> !(r is NoLink),
        r is Strong <==> (within_90_days(
            crate::config::opt_str_view(new_date),
            crate::config::opt_str_view(target_date),
        ) && share_reference(views(new_refs@), views(target_refs@))),
        r is Weak <==> (within_90_days(
            crate::config::opt_str_view(new_date),
            crate::config::opt_str_view(target_date),
        ) && !share_reference(views(new_refs@), views(target_refs@))),
{
    let near = match (new_date, target_date) {
        (Some(a), Some(b)) => match (parse_day(a), parse_day(b)) {
            (Some(p), Some(q)) => -90 <= p - q && p - q <= 90,
            _ => false,
        },
        _ => false,
    };
    if !near {
        FollowUpLink::NoLink
    } else if shares_reference(new_refs, target_refs) {
        FollowUpLink::Strong
    } else {
        FollowUpLink::Weak
    }
}

/// Two documents dated at most 90 days apart always get a follow-up link,
/// whatever their reference numbers; it is strong exactly when they share
/// one and weak exactly when they share none; documents further apart, or
/// not both dated, get none.
pub proof fn lemma_followup_rule(
    new_date: Option<Seq<char>>,
    target_date: Option<Seq<char>>,
    new_refs: Seq<Seq<char>>,
    target_refs: Seq<Seq<char>>,
)
    ensures
        within_90_days(new_date, target_date) ==> !(followup_of(new_date, target_date, new_refs, target_refs) is NoLink),
        !within_90_days(new_date, target_date) ==> followup_of(new_date, target_date, new_refs, target_refs) is NoLink,
        followup_of(new_date, target_date, new_refs, target_refs) is Strong <==> (within_90_days(
            new_date,
            target_date,
        ) && (exists|i: int, j: int|
            0 <= i < new_refs.len() && 0 <= j < target_refs.len() && #[trigger] new_refs[i] == #[trigger] target_refs[j])),
        followup_of(new_date, target_date, new_refs, target_refs) is Weak <==> (within_90_days(
            new_date,
            target_date,
        ) && (forall|i: int, j: int|
            0 <= i < new_refs.len() && 0 <= j < target_refs.len() ==> #[trigger] new_refs[i] != #[trigger] target_refs[j])),
        within_90_days(new_date, target_date) == within_90_days(target_date, new_date),
{
}

/// Two dated documents are within 90 days of each other exactly when their
/// day numbers differ by at most 90, either way.
pub proof fn lemma_ninety_days(a: Seq<char>, b: Seq<char>)
    requires
        day_number(a) is Some,
        day_number(b) is Some,
    ensures
        within_90_days(Some(a), Some(b)) <==> (day_number(a)->0 - day_number(b)->0 <= 90 && day_number(b)->0
            - day_number(a)->0 <= 90),
        within_90_days(None, Some(b)) == false,
        within_90_days(Some(a), None) == false,
{
}

/// Whether `y` is a leap year of the Gregorian calendar.
pub open spec fn is_leap(y: int) -> bool {
    (y % 4 == 0 && y % 100 != 0) || y % 400 == 0
}

/// The first of March follows the 29th of February in a leap year and the
/// 28th otherwise.
pub proof fn lemma_february(y: int)
    requires
        0 <= y <= 9999,
    ensures
        civil_day(y, 3, 1) == civil_day(y, 2, if is_leap(y) { 29int } else { 28int }) + 1,
{
}

/// Day numbers count days: the next day of a month has the next number, and
/// so has the first of the next month after the last day of a month of 31
/// or 30 days, and the first of January after the 31st of December.
pub proof fn lemma_days_consecutive(y: int, m: int, d: int)
    requires
        0 <= y <= 9999,
        1 <= m <= 12,
        1 <= d <= 31,
    ensures
        civil_day(y, m, d + 1) == civil_day(y, m, d) + 1,
        (m == 1 || m == 3 || m == 5 || m == 7 || m == 8 || m == 10) ==> civil_day(y, m + 1, 1)
            == civil_day(y, m, 31) + 1,
        (m == 4 || m == 6 || m == 9 || m == 11) ==> civil_day(y, m + 1, 1) == civil_day(y, m, 30) + 1,
        civil_day(y + 1, 1, 1) == civil_day(y, 12, 31) + 1,
{
}

} // verus!
