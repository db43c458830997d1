//! Resolving a path against a document, and searching a document for the
//! paths of the scalars that a predicate accepts.

use crate::document::{
    is_scalar, is_well_formed, lemma_array_model, lemma_member_absent, lemma_member_at,
    lemma_member_of_distinct, lemma_object_model, member, names_differ, scalar_text,
    DocumentModel, MemberModel, Value,
};
use crate::field::{field_of_text, is_quote_wrapped, FieldBuf, FieldModel};
use crate::pattern::{is_match, pattern_matches};
use crate::segment::{field_models, Segment, SegmentBuf, SegmentModel};
use crate::syntax::PathModel;
use crate::text::str_eq;
use crate::view_path::{ViewPath, ViewPathBuf};
use regex::Regex;
use vstd::prelude::*;

verus! {

/// The value of the first member that one of the names finds, the names
/// tried in their order.
pub open spec fn first_member(members: Seq<MemberModel>, fields: Seq<FieldModel>) -> Option<
    DocumentModel,
>
    decreases fields.len(),
{
    if fields.len() == 0 {
        None
    } else {
        match member(members, fields[0].name) {
            Some(value) => Some(value),
            None => first_member(members, fields.skip(1)),
        }
    }
}

/// Where one segment leads from a value. A field leads from an object to
/// the member of that name. An index leads from an array to the element at
/// that offset, counted from zero; a negative one leads nowhere. A list of
/// alternatives leads from an object to the first member found. Nothing
/// else leads anywhere.
pub open spec fn step_into(value: DocumentModel, segment: SegmentModel) -> Option<DocumentModel> {
    match segment {
        SegmentModel::Field(field) => match value {
            DocumentModel::Object(members) => member(members, field.name),
            _ => None,
        },
        SegmentModel::Index(i) => match value {
            DocumentModel::Array(elements) => if 0 <= i < elements.len() {
                Some(elements[i])
            } else {
                None
            },
            _ => None,
        },
        SegmentModel::Coalesce(fields) => match value {
            DocumentModel::Object(members) => first_member(members, fields),
            _ => None,
        },
    }
}

/// Where a path leads from a value: through its segments in order, and
/// nowhere as soon as one of them leads nowhere.
pub open spec fn resolve(value: DocumentModel, path: PathModel) -> Option<DocumentModel>
    decreases path.len(),
{
    if path.len() == 0 {
        Some(value)
    } else {
        match step_into(value, path[0]) {
            Some(next) => resolve(next, path.skip(1)),
            None => None,
        }
    }
}

/// An index below zero leads nowhere, whatever the value.
pub proof fn lemma_negative_index_leads_nowhere(value: DocumentModel, i: int)
    requires
        i < 0,
    ensures
        step_into(value, SegmentModel::Index(i)) is None,
{
}

/// A path that holds an index below zero leads nowhere, whatever the
/// value it starts from.
pub proof fn lemma_negative_index_resolves_nowhere(value: DocumentModel, path: PathModel, k: int)
    requires
        0 <= k < path.len(),
        path[k] matches SegmentModel::Index(i) && i < 0,
    ensures
        resolve(value, path) is None,
    decreases path.len(),
{
    if k > 0 {
        if let Some(next) = step_into(value, path[0]) {
            assert(path.skip(1)[k - 1] == path[k]);
            lemma_negative_index_resolves_nowhere(next, path.skip(1), k - 1);
        }
    }
}

/// An index leads from an array to the element at that offset, if the
/// array is that long, and from nothing else anywhere.
pub proof fn lemma_index_step(value: DocumentModel, i: int)
    ensures
        step_into(value, SegmentModel::Index(i)) is Some <==> (value matches DocumentModel::Array(
            elements,
        ) && 0 <= i < elements.len()),
{
}

/// The root leads from every value to that value.
pub proof fn lemma_root_resolves(value: DocumentModel)
    ensures
        resolve(value, PathModel::empty()) == Some(value),
{
}

/// Following one path and then another is following the two joined.
pub proof fn lemma_resolve_joined(value: DocumentModel, first: PathModel, second: PathModel)
    ensures
        resolve(value, first + second) == match resolve(value, first) {
            Some(between) => resolve(between, second),
            None => None,
        },
    decreases first.len(),
{
    if first.len() == 0 {
        assert(first + second =~= second);
    } else {
        assert((first + second)[0] == first[0]);
        assert((first + second).skip(1) =~= first.skip(1) + second);
        if let Some(next) = step_into(value, first[0]) {
            lemma_resolve_joined(next, first.skip(1), second);
        }
    }
}

/// The first member of an object with a given name. `members` are the
/// members of `value`.
fn find_member<'a>(value: &'a Value, members: &'a Vec<(String, Value)>, name: &str) -> (r: Option<
    &'a Value,
>)
    requires
        *value == Value::Object(*members),
    ensures
        match r {
            Some(found) => member(value@->Object_0, name@) == Some(found@),
            None => member(value@->Object_0, name@) is None,
        },
{
    let ghost models = value@->Object_0;
    proof {
        lemma_object_model(*members);
    }
    let mut k: usize = 0;
    while k < members.len()
        invariant
            k <= members.len(),
            models == value@->Object_0,
            models.len() == members@.len(),
            forall|i: int|
                0 <= i < members@.len() ==> #[trigger] models[i] == (
                    members@[i].0@,
                    members@[i].1@,
                ),
            forall|j: int| 0 <= j < k ==> (#[trigger] models[j]).0 != name@,
        decreases members.len() - k,
    {
        if str_eq(members[k].0.as_str(), name) {
            proof {
                lemma_member_at(models, name@, k as int);
            }
            return Some(&members[k].1);
        }
        k += 1;
    }
    proof {
        lemma_member_absent(models, name@);
    }
    None
}

/// Where one segment leads from a value, if anywhere.
pub fn search_segment<'a>(value: &'a Value, seg: Segment<'a>) -> (r: Option<&'a Value>)
    ensures
        match r {
            Some(found) => step_into(value@, seg@) == Some(found@),
            None => step_into(value@, seg@) is None,
        },
{
    let ghost target = step_into(value@, seg@);
    match seg {
        Segment::Field(f) => match value {
            Value::Object(m) => find_member(value, m, f.as_str()),
            _ => None,
        },
        Segment::Index(i) => match value {
            Value::Array(a) => {
                proof {
                    lemma_array_model(*a);
                }
                if i < 0 {
                    None
                } else {
                    let offset = i as usize;
                    if offset < a.len() {
                        Some(&a[offset])
                    } else {
                        None
                    }
                }
            },
            _ => None,
        },
        Segment::Coalesce(c) => match value {
            Value::Object(m) => {
                let ghost fields = field_models(c@);
                let ghost models = value@->Object_0;
                assert(fields.skip(0) =~= fields);
                let mut k: usize = 0;
                while k < c.len()
                    invariant
                        k <= c.len(),
                        *value == Value::Object(*m),
                        models == value@->Object_0,
                        fields == field_models(c@),
                        target == step_into(value@, seg@),
                        target == first_member(models, fields.skip(k as int)),
                    decreases c.len() - k,
                {
                    let v = find_member(value, m, c[k].as_str());
                    assert(fields.skip(k as int)[0] == c@[k as int]@);
                    if v.is_some() {
                        return v;
                    }
                    assert(fields.skip(k as int).skip(1) =~= fields.skip(k + 1));
                    k += 1;
                }
                None
            },
            _ => None,
        },
    }
}

/// Where a path leads from a value, if anywhere.
pub fn search_path<'a>(value: &'a Value, path: ViewPath<'a>) -> (r: Option<&'a Value>)
    ensures
        match r {
            Some(found) => resolve(value@, path@) == Some(found@),
            None => resolve(value@, path@) is None,
        },
{
    let mut current = value;
    let mut rest = path;
    loop
        invariant
            resolve(value@, path@) == resolve(current@, rest@),
        decreases rest@.len(),
    {
        match rest.pop_front() {
            Some(seg) => match search_segment(current, seg) {
                Some(v) => current = v,
                None => return None,
            },
            None => return Some(current),
        }
    }
}

/// A match of a search: the path from the value searched to a scalar that
/// was accepted, and that scalar.
pub type MatchModel = (PathModel, DocumentModel);

/// The matches of a part, seen from the whole: each path with the segment
/// that leads to the part put in front.
pub open spec fn prepend_all(segment: SegmentModel, found: Seq<MatchModel>) -> Seq<MatchModel> {
    Seq::new(found.len(), |i: int| (seq![segment] + found[i].0, found[i].1))
}

/// The segment that leads to the element at an offset of an array: the
/// offset as an index holds it, which is the offset itself as long as an
/// index can count that far.
pub open spec fn element_step(offset: int) -> SegmentModel {
    SegmentModel::Index(offset as isize as int)
}

/// The segment that leads to a member of an object: its name, read as a
/// field is read from text.
pub open spec fn member_step(name: Seq<char>) -> SegmentModel {
    SegmentModel::Field(field_of_text(name))
}

/// All matches below a value, depth first. A scalar that `accepts` takes
/// is a match at the empty path; `null` never is one. The matches below an
/// array are those below its elements in order, and those below an object
/// are those below its members as enumerated, each path with the segment
/// that leads to the element or member in front.
pub open spec fn find_all(value: DocumentModel, accepts: spec_fn(DocumentModel) -> bool) -> Seq<
    MatchModel,
>
    decreases value, 0nat,
{
    match value {
        DocumentModel::Null => Seq::empty(),
        DocumentModel::Array(elements) => find_in_elements(elements, accepts, elements.len()),
        DocumentModel::Object(members) => find_in_members(members, accepts, members.len()),
        _ => if accepts(value) {
            seq![(PathModel::empty(), value)]
        } else {
            Seq::empty()
        },
    }
}

/// The matches below the first `n` elements of an array.
pub open spec fn find_in_elements(
    elements: Seq<DocumentModel>,
    accepts: spec_fn(DocumentModel) -> bool,
    n: nat,
) -> Seq<MatchModel>
    decreases elements, n,
{
    if n == 0 || n > elements.len() {
        Seq::empty()
    } else {
        find_in_elements(elements, accepts, (n - 1) as nat) + prepend_all(
            element_step(n - 1),
            find_all(elements[n - 1], accepts),
        )
    }
}

/// The matches below the first `n` members of an object.
pub open spec fn find_in_members(
    members: Seq<MemberModel>,
    accepts: spec_fn(DocumentModel) -> bool,
    n: nat,
) -> Seq<MatchModel>
    decreases members, n,
{
    if n == 0 || n > members.len() {
        Seq::empty()
    } else {
        find_in_members(members, accepts, (n - 1) as nat) + prepend_all(
            member_step(members[n - 1].0),
            find_all(members[n - 1].1, accepts),
        )
    }
}

/// Whether `accepts` says of every scalar what the predicate returns on
/// it.
pub open spec fn decided_by<F: Fn(&Value) -> bool>(
    predicate: F,
    accepts: spec_fn(DocumentModel) -> bool,
) -> bool {
    forall|value: Value, taken: bool|
        is_scalar(value@) && #[trigger] call_ensures(predicate, (&value,), taken) ==> taken
            == accepts(value@)
}

/// Whether a value is a scalar on which the predicate can return `true`.
pub open spec fn can_take<F: Fn(&Value) -> bool>(predicate: F, value: Value) -> bool {
    is_scalar(value@) && call_ensures(predicate, (&value,), true)
}

/// Whether every value found is a scalar on which the predicate can
/// return `true`.
pub open spec fn all_taken<'a, F: Fn(&Value) -> bool>(
    predicate: F,
    found: Seq<(ViewPathBuf, &'a Value)>,
) -> bool {
    forall|i: int| 0 <= i < found.len() ==> can_take(predicate, *(#[trigger] found[i]).1)
}

/// The matches that a list of results holds.
pub open spec fn found_models<'a>(found: Seq<(ViewPathBuf, &'a Value)>) -> Seq<MatchModel> {
    Seq::new(found.len(), |i: int| (found[i].0@, found[i].1@))
}

/// The matches that a result reports.
pub open spec fn reported<'a>(result: Option<Vec<(ViewPathBuf, &'a Value)>>) -> Seq<MatchModel> {
    match result {
        Some(found) => found_models(found@),
        None => Seq::empty(),
    }
}

/// Whether a result reports exactly these matches: the list of them in
/// their order, or `None` where there are none.
pub open spec fn reports<'a>(
    result: Option<Vec<(ViewPathBuf, &'a Value)>>,
    matches: Seq<MatchModel>,
) -> bool {
    match result {
        Some(found) => matches.len() > 0 && found_models(found@) == matches,
        None => matches.len() == 0,
    }
}

/// The values that a list of results holds.
pub open spec fn found_values<'a>(found: Seq<(ViewPathBuf, &'a Value)>) -> Seq<&'a Value> {
    Seq::new(found.len(), |i: int| found[i].1)
}

/// Moves the results of a part to the results of the whole, each path with
/// the segment that leads to the part in front.
fn prepend_into<'a>(
    ret: &mut Vec<(ViewPathBuf, &'a Value)>,
    paths: Vec<(ViewPathBuf, &'a Value)>,
    segment: &SegmentBuf,
)
    ensures
        found_models(final(ret)@) == found_models(old(ret)@) + prepend_all(
            segment@,
            found_models(paths@),
        ),
        found_values(final(ret)@) == found_values(old(ret)@) + found_values(paths@),
{
    let ghost before = found_models(ret@);
    let ghost added = prepend_all(segment@, found_models(paths@));
    for item in it: paths.into_iter()
        invariant
            it.seq() == paths@,
            before == found_models(old(ret)@),
            added == prepend_all(segment@, found_models(paths@)),
            found_models(ret@) == before + added.take(it.index() as int),
            found_values(ret@) == found_values(old(ret)@) + found_values(paths@).take(
                it.index() as int,
            ),
    {
        let ghost k = it.index() as int;
        assert(item == paths@[k]);
        let ghost earlier = found_models(ret@);
        let ghost earlier_values = found_values(ret@);
        let (mut path, vp) = item;
        path.push_front(segment.clone());
        ret.push((path, vp));
        assert(added.take(k + 1) =~= added.take(k).push(added[k]));
        assert(added[k] == (seq![segment@] + paths@[k].0@, paths@[k].1@));
        assert(found_models(ret@) =~= earlier.push(added[k]));
        assert(found_models(ret@) =~= before + added.take(k + 1));
        assert(found_values(ret@) =~= earlier_values.push(paths@[k].1));
        assert(found_values(ret@) =~= found_values(old(ret)@) + found_values(paths@).take(k + 1));
    }
    assert(added.take(paths@.len() as int) =~= added);
    assert(found_values(paths@).take(paths@.len() as int) =~= found_values(paths@));
}

/// Results that hold the values of two lists of taken scalars hold taken
/// scalars only.
proof fn lemma_all_taken_joined<'a, F: Fn(&Value) -> bool>(
    predicate: F,
    before: Seq<(ViewPathBuf, &'a Value)>,
    added: Seq<(ViewPathBuf, &'a Value)>,
    after: Seq<(ViewPathBuf, &'a Value)>,
)
    requires
        all_taken(predicate, before),
        all_taken(predicate, added),
        found_values(after) == found_values(before) + found_values(added),
    ensures
        all_taken(predicate, after),
{
    let values = found_values(after);
    assert(values.len() == after.len());
    assert(found_values(before).len() == before.len());
    assert(found_values(added).len() == added.len());
    assert forall|i: int| 0 <= i < after.len() implies can_take(
        predicate,
        *(#[trigger] after[i]).1,
    ) by {
        assert(after[i].1 == values[i]);
        if i < before.len() {
            assert(values[i] == found_values(before)[i]);
            assert(before[i].1 == found_values(before)[i]);
        } else {
            let j = i - before.len();
            assert(values[i] == found_values(added)[j]);
            assert(added[j].1 == found_values(added)[j]);
        }
    }
}

/// The search itself, with the predicate borrowed so that it can be handed
/// down.
fn find_by<'a, F: Fn(&Value) -> bool>(value: &'a Value, predicate: &F) -> (r: Option<
    Vec<(ViewPathBuf, &'a Value)>,
>)
    requires
        forall|scalar: Value|
            is_scalar(scalar@) ==> #[trigger] call_requires(*predicate, (&scalar,)),
    ensures
        forall|accepts: spec_fn(DocumentModel) -> bool|
            decided_by(*predicate, accepts) ==> reports(r, #[trigger] find_all(value@, accepts)),
        r matches Some(found) ==> found@.len() > 0 && all_taken(*predicate, found@),
    decreases value,
{
    match value {
        Value::Null => None,
        Value::Bool(_) | Value::Number(_) | Value::String(_) => {
            let taken = predicate(value);
            let r = if taken {
                let mut found: Vec<(ViewPathBuf, &'a Value)> = Vec::new();
                found.push((ViewPathBuf::root(), value));
                assert(found_models(found@) =~= seq![(PathModel::empty(), value@)]);
                Some(found)
            } else {
                None
            };
            assert forall|accepts: spec_fn(DocumentModel) -> bool|
                decided_by(*predicate, accepts) implies reports(
                r,
                #[trigger] find_all(value@, accepts),
            ) by {
                assert(call_ensures(*predicate, (value,), taken));
            }
            r
        },
        Value::Array(a) => {
            let ghost elements = value@->Array_0;
            proof {
                lemma_array_model(*a);
            }
            let mut ret: Vec<(ViewPathBuf, &'a Value)> = Vec::new();
            let mut i: usize = 0;
            assert(found_models(ret@) =~= Seq::<MatchModel>::empty());
            while i < a.len()
                invariant
                    i <= a.len(),
                    *value == Value::Array(*a),
                    value@ == DocumentModel::Array(elements),
                    elements.len() == a@.len(),
                    forall|k: int| 0 <= k < a@.len() ==> #[trigger] elements[k] == a@[k]@,
                    forall|scalar: Value|
                        is_scalar(scalar@) ==> #[trigger] call_requires(*predicate, (&scalar,)),
                    forall|accepts: spec_fn(DocumentModel) -> bool|
                        decided_by(*predicate, accepts) ==> found_models(ret@)
                            == #[trigger] find_in_elements(elements, accepts, i as nat),
                    all_taken(*predicate, ret@),
                decreases a.len() - i,
            {
                let ghost before = found_models(ret@);
                assert(decreases_to!(value => a@[i as int])) by {
                    assert(decreases_to!(*value => value->Array_0));
                }
                let sub = find_by(&a[i], predicate);
                assert forall|accepts: spec_fn(DocumentModel) -> bool|
                    decided_by(*predicate, accepts) implies reported(sub) == #[trigger] find_all(
                    elements[i as int],
                    accepts,
                ) by {
                    assert(reports(sub, find_all(a@[i as int]@, accepts)));
                }
                let ghost below = reported(sub);
                let ghost earlier = ret@;
                match sub {
                    Some(paths) => {
                        prepend_into(
                            &mut ret,
                            paths,
                            &SegmentBuf::Index(#[verifier::truncate] (i as isize)),
                        );
                        proof {
                            lemma_all_taken_joined(*predicate, earlier, paths@, ret@);
                        }
                    },
                    None => {
                        assert(prepend_all(element_step(i as int), below) =~= Seq::<
                            MatchModel,
                        >::empty());
                        assert(before + Seq::<MatchModel>::empty() =~= before);
                    },
                }
                assert forall|accepts: spec_fn(DocumentModel) -> bool|
                    decided_by(*predicate, accepts) implies found_models(ret@)
                    == #[trigger] find_in_elements(elements, accepts, (i + 1) as nat) by {
                    assert(before == find_in_elements(elements, accepts, i as nat));
                    assert(below == find_all(elements[i as int], accepts));
                }
                i += 1;
            }
            assert forall|accepts: spec_fn(DocumentModel) -> bool|
                decided_by(*predicate, accepts) implies found_models(ret@) == #[trigger] find_all(
                value@,
                accepts,
            ) by {
                assert(found_models(ret@) == find_in_elements(elements, accepts, elements.len()));
            }
            if ret.len() > 0 {
                Some(ret)
            } else {
                None
            }
        },
        Value::Object(m) => {
            let ghost members = value@->Object_0;
            proof {
                lemma_object_model(*m);
            }
            let mut ret: Vec<(ViewPathBuf, &'a Value)> = Vec::new();
            let mut i: usize = 0;
            assert(found_models(ret@) =~= Seq::<MatchModel>::empty());
            while i < m.len()
                invariant
                    i <= m.len(),
                    *value == Value::Object(*m),
                    value@ == DocumentModel::Object(members),
                    members.len() == m@.len(),
                    forall|k: int|
                        0 <= k < m@.len() ==> #[trigger] members[k] == (m@[k].0@, m@[k].1@),
                    forall|scalar: Value|
                        is_scalar(scalar@) ==> #[trigger] call_requires(*predicate, (&scalar,)),
                    forall|accepts: spec_fn(DocumentModel) -> bool|
                        decided_by(*predicate, accepts) ==> found_models(ret@)
                            == #[trigger] find_in_members(members, accepts, i as nat),
                    all_taken(*predicate, ret@),
                decreases m.len() - i,
            {
                let ghost before = found_models(ret@);
                assert(decreases_to!(value => m@[i as int].1)) by {
                    assert(decreases_to!(*value => value->Object_0));
                    assert(decreases_to!(m@[i as int] => m@[i as int].1));
                }
                let sub = find_by(&m[i].1, predicate);
                assert forall|accepts: spec_fn(DocumentModel) -> bool|
                    decided_by(*predicate, accepts) implies reported(sub) == #[trigger] find_all(
                    members[i as int].1,
                    accepts,
                ) by {
                    assert(reports(sub, find_all(m@[i as int].1@, accepts)));
                }
                let ghost below = reported(sub);
                let ghost earlier = ret@;
                match sub {
                    Some(paths) => {
                        let front = SegmentBuf::Field(FieldBuf::from(m[i].0.as_str()));
                        prepend_into(&mut ret, paths, &front);
                        proof {
                            lemma_all_taken_joined(*predicate, earlier, paths@, ret@);
                        }
                    },
                    None => {
                        assert(prepend_all(member_step(members[i as int].0), below) =~= Seq::<
                            MatchModel,
                        >::empty());
                        assert(before + Seq::<MatchModel>::empty() =~= before);
                    },
                }
                assert forall|accepts: spec_fn(DocumentModel) -> bool|
                    decided_by(*predicate, accepts) implies found_models(ret@)
                    == #[trigger] find_in_members(members, accepts, (i + 1) as nat) by {
                    assert(before == find_in_members(members, accepts, i as nat));
                    assert(below == find_all(members[i as int].1, accepts));
                }
                i += 1;
            }
            assert forall|accepts: spec_fn(DocumentModel) -> bool|
                decided_by(*predicate, accepts) implies found_models(ret@) == #[trigger] find_all(
                value@,
                accepts,
            ) by {
                assert(found_models(ret@) == find_in_members(members, accepts, members.len()));
            }
            if ret.len() > 0 {
                Some(ret)
            } else {
                None
            }
        },
    }
}

/// Searches a document for the scalars that a predicate accepts. The
/// predicate has to take every scalar. Whatever says of every scalar what
/// the predicate returns on it also says what is found: the matches of
/// [`find_all`], or `None` where there are none. Whatever the predicate
/// does, a list that is reported is not empty, and holds only scalars on
/// which the predicate can return `true`.
pub fn nest_find_by<'a, F: Fn(&Value) -> bool>(value: &'a Value, predicate: F) -> (r: Option<
    Vec<(ViewPathBuf, &'a Value)>,
>)
    requires
        forall|scalar: Value|
            is_scalar(scalar@) ==> #[trigger] call_requires(predicate, (&scalar,)),
    ensures
        forall|accepts: spec_fn(DocumentModel) -> bool|
            decided_by(predicate, accepts) ==> reports(r, #[trigger] find_all(value@, accepts)),
        r matches Some(found) ==> found@.len() > 0 && all_taken(predicate, found@),
{
    find_by(value, &predicate)
}

/// Whether a value is a scalar with exactly this text.
pub open spec fn has_text(value: DocumentModel, expect: Seq<char>) -> bool {
    scalar_text(value) == Some(expect)
}

/// Whether a value is a scalar in whose text the pattern has a match.
pub open spec fn matched_by(value: DocumentModel, pattern: &Regex) -> bool {
    match scalar_text(value) {
        Some(text) => pattern_matches(*pattern, text),
        None => false,
    }
}

/// The paths of matches, in their order.
pub open spec fn paths_of(matches: Seq<MatchModel>) -> Seq<PathModel> {
    Seq::new(matches.len(), |i: int| matches[i].0)
}

/// The models of a list of paths.
pub open spec fn path_models(paths: Seq<ViewPathBuf>) -> Seq<PathModel> {
    Seq::new(paths.len(), |i: int| paths[i]@)
}

/// Searches a document for the scalars whose text is exactly `expect`, and
/// gives the paths that lead to them, or `None` where there is none.
pub fn nest_find_value<'a>(value: &'a Value, expect: &str) -> (r: Option<Vec<ViewPathBuf>>)
    ensures
        match r {
            Some(paths) => paths@.len() > 0 && path_models(paths@) == paths_of(
                find_all(value@, |v: DocumentModel| has_text(v, expect@)),
            ),
            None => find_all(value@, |v: DocumentModel| has_text(v, expect@)).len() == 0,
        },
{
    let predicate = |v: &Value| -> (taken: bool)
        ensures
            taken == has_text(v@, expect@),
        { match v.text() {
            Some(text) => str_eq(text, expect),
            None => false,
        } };
    let ghost accepts = |v: DocumentModel| has_text(v, expect@);
    let found = nest_find_by(value, predicate);
    assert(decided_by(predicate, accepts));
    assert(reports(found, find_all(value@, accepts)));
    match found {
        Some(values) => {
            let ghost matches = found_models(values@);
            let mut paths: Vec<ViewPathBuf> = Vec::new();
            for item in it: values.into_iter()
                invariant
                    it.seq() == values@,
                    matches == found_models(values@),
                    path_models(paths@) == paths_of(matches).take(it.index() as int),
            {
                let ghost k = it.index() as int;
                assert(item == values@[k]);
                let ghost earlier = path_models(paths@);
                paths.push(item.0);
                assert(path_models(paths@) =~= earlier.push(paths_of(matches)[k]));
                assert(path_models(paths@) =~= paths_of(matches).take(k + 1));
            }
            assert(paths_of(matches).take(values@.len() as int) =~= paths_of(matches));
            Some(paths)
        },
        None => None,
    }
}

/// Searches a document for the scalars in whose text the pattern has a
/// match, anywhere in the text, and gives them with the paths that lead to
/// them, or `None` where there is none.
pub fn nest_find_regex<'a>(value: &'a Value, expect: Regex) -> (r: Option<
    Vec<(ViewPathBuf, &'a Value)>,
>)
    ensures
        reports(r, find_all(value@, |v: DocumentModel| matched_by(v, &expect))),
{
    let pattern = &expect;
    let predicate = |v: &Value| -> (taken: bool)
        ensures
            taken == matched_by(v@, pattern),
        { match v.text() {
            Some(text) => is_match(pattern, text),
            None => false,
        } };
    let ghost accepts = |v: DocumentModel| matched_by(v, &expect);
    let found = nest_find_by(value, predicate);
    assert(decided_by(predicate, accepts));
    assert(reports(found, find_all(value@, accepts)));
    found
}

/// Every match below the first `n` elements of an array is a scalar that
/// was accepted.
proof fn lemma_found_in_elements_accepted(
    elements: Seq<DocumentModel>,
    accepts: spec_fn(DocumentModel) -> bool,
    n: nat,
    i: int,
)
    requires
        n <= elements.len(),
        0 <= i < find_in_elements(elements, accepts, n).len(),
    ensures
        is_scalar(find_in_elements(elements, accepts, n)[i].1),
        accepts(find_in_elements(elements, accepts, n)[i].1),
    decreases elements, n,
{
    let earlier = find_in_elements(elements, accepts, (n - 1) as nat);
    if i < earlier.len() {
        lemma_found_in_elements_accepted(elements, accepts, (n - 1) as nat, i);
    } else {
        lemma_found_are_accepted(elements[n - 1], accepts, i - earlier.len());
    }
}

/// Every match below the first `n` members of an object is a scalar that
/// was accepted.
proof fn lemma_found_in_members_accepted(
    members: Seq<MemberModel>,
    accepts: spec_fn(DocumentModel) -> bool,
    n: nat,
    i: int,
)
    requires
        n <= members.len(),
        0 <= i < find_in_members(members, accepts, n).len(),
    ensures
        is_scalar(find_in_members(members, accepts, n)[i].1),
        accepts(find_in_members(members, accepts, n)[i].1),
    decreases members, n,
{
    let earlier = find_in_members(members, accepts, (n - 1) as nat);
    if i < earlier.len() {
        lemma_found_in_members_accepted(members, accepts, (n - 1) as nat, i);
    } else {
        lemma_found_are_accepted(members[n - 1].1, accepts, i - earlier.len());
    }
}

/// Every match of a search is a scalar that was accepted.
pub proof fn lemma_found_are_accepted(
    value: DocumentModel,
    accepts: spec_fn(DocumentModel) -> bool,
    i: int,
)
    requires
        0 <= i < find_all(value, accepts).len(),
    ensures
        is_scalar(find_all(value, accepts)[i].1),
        accepts(find_all(value, accepts)[i].1),
    decreases value, 0nat,
{
    match value {
        DocumentModel::Array(elements) => {
            lemma_found_in_elements_accepted(elements, accepts, elements.len(), i);
        },
        DocumentModel::Object(members) => {
            lemma_found_in_members_accepted(members, accepts, members.len(), i);
        },
        _ => {},
    }
}

/// The documents in which every path that a search reports leads back to
/// what was found: arrays are no longer than an index can count, and the
/// members of an object have names that differ from each other, as the
/// invariant of documents asks, and that are not wrapped in double quotes.
pub open spec fn is_plain(value: DocumentModel) -> bool
    decreases value,
{
    match value {
        DocumentModel::Array(elements) => {
            &&& elements.len() <= isize::MAX
            &&& forall|i: int| 0 <= i < elements.len() ==> is_plain(#[trigger] elements[i])
        },
        DocumentModel::Object(members) => {
            &&& names_differ(members)
            &&& forall|i: int|
                0 <= i < members.len() ==> !is_quote_wrapped((#[trigger] members[i]).0)
                    && is_plain(members[i].1)
        },
        _ => true,
    }
}

/// A plain document keeps the invariant of documents.
pub proof fn lemma_plain_is_well_formed(value: DocumentModel)
    requires
        is_plain(value),
    ensures
        is_well_formed(value),
    decreases value,
{
    match value {
        DocumentModel::Array(elements) => {
            assert forall|i: int| 0 <= i < elements.len() implies is_well_formed(
                #[trigger] elements[i],
            ) by {
                lemma_plain_is_well_formed(elements[i]);
            }
        },
        DocumentModel::Object(members) => {
            assert forall|i: int| 0 <= i < members.len() implies is_well_formed(
                (#[trigger] members[i]).1,
            ) by {
                lemma_plain_is_well_formed(members[i].1);
            }
        },
        _ => {},
    }
}

/// Whether a match is a scalar that was accepted and that its path leads
/// to from `value`.
pub open spec fn leads_back(
    value: DocumentModel,
    accepts: spec_fn(DocumentModel) -> bool,
    found: MatchModel,
) -> bool {
    &&& resolve(value, found.0) == Some(found.1)
    &&& is_scalar(found.1)
    &&& accepts(found.1)
}

/// In a plain array every match below the first `n` elements leads back.
proof fn lemma_found_in_elements(
    elements: Seq<DocumentModel>,
    accepts: spec_fn(DocumentModel) -> bool,
    n: nat,
    i: int,
)
    requires
        is_plain(DocumentModel::Array(elements)),
        n <= elements.len(),
        0 <= i < find_in_elements(elements, accepts, n).len(),
    ensures
        leads_back(
            DocumentModel::Array(elements),
            accepts,
            find_in_elements(elements, accepts, n)[i],
        ),
    decreases elements, n,
{
    let earlier = find_in_elements(elements, accepts, (n - 1) as nat);
    if i < earlier.len() {
        lemma_found_in_elements(elements, accepts, (n - 1) as nat, i);
    } else {
        let element = elements[n - 1];
        let below = find_all(element, accepts);
        let j = i - earlier.len();
        let found = find_in_elements(elements, accepts, n)[i];
        assert(found == prepend_all(element_step(n - 1), below)[j]);
        lemma_found_paths_lead_back(element, accepts, j);
        assert(element_step(n - 1) == SegmentModel::Index(n - 1));
        assert(found.0.skip(1) =~= below[j].0);
    }
}

/// In a plain object every match below the first `n` members leads back.
proof fn lemma_found_in_members(
    members: Seq<MemberModel>,
    accepts: spec_fn(DocumentModel) -> bool,
    n: nat,
    i: int,
)
    requires
        is_plain(DocumentModel::Object(members)),
        n <= members.len(),
        0 <= i < find_in_members(members, accepts, n).len(),
    ensures
        leads_back(
            DocumentModel::Object(members),
            accepts,
            find_in_members(members, accepts, n)[i],
        ),
    decreases members, n,
{
    let earlier = find_in_members(members, accepts, (n - 1) as nat);
    if i < earlier.len() {
        lemma_found_in_members(members, accepts, (n - 1) as nat, i);
    } else {
        let entry = members[n - 1];
        let name = entry.0;
        let inner = entry.1;
        assert(DocumentModel::Object(members)->Object_0 == members);
        assert(0 <= n - 1 < members.len());
        let below = find_all(inner, accepts);
        let j = i - earlier.len();
        let found = find_in_members(members, accepts, n)[i];
        assert(found == prepend_all(member_step(name), below)[j]);
        lemma_found_paths_lead_back(inner, accepts, j);
        assert(field_of_text(name).name == name);
        lemma_member_of_distinct(members, n - 1);
        assert(found.0.skip(1) =~= below[j].0);
    }
}

/// In a plain document every match of a search is a scalar that was
/// accepted, and its path leads to it.
pub proof fn lemma_found_paths_lead_back(
    value: DocumentModel,
    accepts: spec_fn(DocumentModel) -> bool,
    i: int,
)
    requires
        is_plain(value),
        0 <= i < find_all(value, accepts).len(),
    ensures
        leads_back(value, accepts, find_all(value, accepts)[i]),
    decreases value, 0nat,
{
    match value {
        DocumentModel::Array(elements) => {
            lemma_found_in_elements(elements, accepts, elements.len(), i);
        },
        DocumentModel::Object(members) => {
            lemma_found_in_members(members, accepts, members.len(), i);
        },
        _ => {
            assert(find_all(value, accepts)[i].0 =~= PathModel::empty());
        },
    }
}

/// The paths that a search of a plain document builds: fields and indexes
/// from zero upwards, and no alternatives.
pub open spec fn is_direct(path: PathModel) -> bool {
    forall|k: int|
        0 <= k < path.len() ==> match #[trigger] path[k] {
            SegmentModel::Field(_) => true,
            SegmentModel::Index(i) => i >= 0,
            SegmentModel::Coalesce(_) => false,
        }
}

/// A direct path stays direct with a field or an index from zero upwards
/// in front.
proof fn lemma_direct_with_front(segment: SegmentModel, path: PathModel)
    requires
        is_direct(path),
        segment is Field || (segment matches SegmentModel::Index(i) && i >= 0),
    ensures
        is_direct(seq![segment] + path),
{
    let whole = seq![segment] + path;
    assert forall|k: int| 0 <= k < whole.len() implies match #[trigger] whole[k] {
        SegmentModel::Field(_) => true,
        SegmentModel::Index(i) => i >= 0,
        SegmentModel::Coalesce(_) => false,
    } by {
        if k > 0 {
            assert(whole[k] == path[k - 1]);
        }
    }
}

/// In a plain array the paths of the matches below the first `n` elements
/// are direct.
proof fn lemma_found_in_elements_direct(
    elements: Seq<DocumentModel>,
    accepts: spec_fn(DocumentModel) -> bool,
    n: nat,
    i: int,
)
    requires
        is_plain(DocumentModel::Array(elements)),
        n <= elements.len(),
        0 <= i < find_in_elements(elements, accepts, n).len(),
    ensures
        is_direct(find_in_elements(elements, accepts, n)[i].0),
    decreases elements, n,
{
    let earlier = find_in_elements(elements, accepts, (n - 1) as nat);
    if i < earlier.len() {
        lemma_found_in_elements_direct(elements, accepts, (n - 1) as nat, i);
    } else {
        let below = find_all(elements[n - 1], accepts);
        let j = i - earlier.len();
        lemma_found_paths_are_direct(elements[n - 1], accepts, j);
        assert(element_step(n - 1) == SegmentModel::Index(n - 1));
        lemma_direct_with_front(element_step(n - 1), below[j].0);
    }
}

/// In a plain object the paths of the matches below the first `n` members
/// are direct.
proof fn lemma_found_in_members_direct(
    members: Seq<MemberModel>,
    accepts: spec_fn(DocumentModel) -> bool,
    n: nat,
    i: int,
)
    requires
        is_plain(DocumentModel::Object(members)),
        n <= members.len(),
        0 <= i < find_in_members(members, accepts, n).len(),
    ensures
        is_direct(find_in_members(members, accepts, n)[i].0),
    decreases members, n,
{
    let earlier = find_in_members(members, accepts, (n - 1) as nat);
    if i < earlier.len() {
        lemma_found_in_members_direct(members, accepts, (n - 1) as nat, i);
    } else {
        let entry = members[n - 1];
        assert(DocumentModel::Object(members)->Object_0 == members);
        assert(0 <= n - 1 < members.len());
        let below = find_all(entry.1, accepts);
        let j = i - earlier.len();
        lemma_found_paths_are_direct(entry.1, accepts, j);
        lemma_direct_with_front(member_step(entry.0), below[j].0);
    }
}

/// In a plain document the path of every match holds fields and indexes
/// from zero upwards only.
pub proof fn lemma_found_paths_are_direct(
    value: DocumentModel,
    accepts: spec_fn(DocumentModel) -> bool,
    i: int,
)
    requires
        is_plain(value),
        0 <= i < find_all(value, accepts).len(),
    ensures
        is_direct(find_all(value, accepts)[i].0),
    decreases value, 0nat,
{
    match value {
        DocumentModel::Array(elements) => {
            lemma_found_in_elements_direct(elements, accepts, elements.len(), i);
        },
        DocumentModel::Object(members) => {
            lemma_found_in_members_direct(members, accepts, members.len(), i);
        },
        _ => {
            assert(find_all(value, accepts)[i].0 =~= PathModel::empty());
        },
    }
}

} // verus!
