//! Documents: the tree-shaped values that paths address.

use crate::text::str_eq;
use vstd::prelude::*;
use vstd::std_specs::cmp::PartialEqSpecImpl;

verus! {

/// A document or a part of one.
///
/// An object is a map: its members are meant to have names that differ
/// from each other. The type does not enforce this, since its variants are
/// built freely; [`is_well_formed`] is the invariant, and
/// [`Value::is_well_formed`] tests it. Where a name is repeated all the
/// same, a path finds the first member of that name only, while a search
/// still reports every member.
#[derive(Debug)]
pub enum Value {
    Null,
    Bool(bool),
    /// A number, held as its canonical decimal text.
    Number(String),
    String(String),
    /// Elements in their order.
    Array(Vec<Value>),
    /// Members as name and value, in the order in which they are
    /// enumerated. No two members should share a name: see
    /// [`names_differ`].
    Object(Vec<(String, Value)>),
}

/// What a document is: the tree of its values.
pub enum DocumentModel {
    Null,
    Bool(bool),
    /// A number, as its canonical decimal text.
    Number(Seq<char>),
    String(Seq<char>),
    Array(Seq<DocumentModel>),
    Object(Seq<(Seq<char>, DocumentModel)>),
}

/// A member of an object: its name and its value.
pub type MemberModel = (Seq<char>, DocumentModel);

/// The model of a value.
pub open spec fn model_of(value: Value) -> DocumentModel
    decreases value, 0nat,
{
    match value {
        Value::Null => DocumentModel::Null,
        Value::Bool(b) => DocumentModel::Bool(b),
        Value::Number(n) => DocumentModel::Number(n@),
        Value::String(s) => DocumentModel::String(s@),
        Value::Array(elements) => DocumentModel::Array(
            element_models(elements@, elements@.len()),
        ),
        Value::Object(members) => DocumentModel::Object(member_models(members@, members@.len())),
    }
}

/// The models of the first `n` elements of an array.
pub open spec fn element_models(elements: Seq<Value>, n: nat) -> Seq<DocumentModel>
    decreases elements, n,
{
    if n == 0 || n > elements.len() {
        Seq::empty()
    } else {
        element_models(elements, (n - 1) as nat).push(model_of(elements[n - 1]))
    }
}

/// The models of the first `n` members of an object.
pub open spec fn member_models(members: Seq<(String, Value)>, n: nat) -> Seq<MemberModel>
    decreases members, n,
{
    if n == 0 || n > members.len() {
        Seq::empty()
    } else {
        member_models(members, (n - 1) as nat).push(
            (members[n - 1].0@, model_of(members[n - 1].1)),
        )
    }
}

impl View for Value {
    type V = DocumentModel;

    open spec fn view(&self) -> DocumentModel {
        model_of(*self)
    }
}

/// The models of elements are as many as the elements, each the model of
/// its element.
pub proof fn lemma_element_models(elements: Seq<Value>, n: nat)
    requires
        n <= elements.len(),
    ensures
        element_models(elements, n).len() == n,
        forall|i: int| 0 <= i < n ==> #[trigger] element_models(elements, n)[i] == elements[i]@,
    decreases n,
{
    if n > 0 {
        lemma_element_models(elements, (n - 1) as nat);
    }
}

/// The models of members are as many as the members, each the name and
/// the model of the value of its member.
pub proof fn lemma_member_models(members: Seq<(String, Value)>, n: nat)
    requires
        n <= members.len(),
    ensures
        member_models(members, n).len() == n,
        forall|i: int|
            0 <= i < n ==> #[trigger] member_models(members, n)[i] == (
                members[i].0@,
                members[i].1@,
            ),
    decreases n,
{
    if n > 0 {
        lemma_member_models(members, (n - 1) as nat);
    }
}

/// The elements of an array as its model holds them.
pub proof fn lemma_array_model(elements: Vec<Value>)
    ensures
        Value::Array(elements)@ matches DocumentModel::Array(models) && models.len()
            == elements@.len() && forall|i: int|
            0 <= i < elements@.len() ==> #[trigger] models[i] == elements@[i]@,
{
    lemma_element_models(elements@, elements@.len());
}

/// The members of an object as its model holds them.
pub proof fn lemma_object_model(members: Vec<(String, Value)>)
    ensures
        Value::Object(members)@ matches DocumentModel::Object(models) && models.len()
            == members@.len() && forall|i: int|
            0 <= i < members@.len() ==> #[trigger] models[i] == (
                members@[i].0@,
                members@[i].1@,
            ),
{
    lemma_member_models(members@, members@.len());
}

/// Whether the members of an object have names that differ from each
/// other, as the entries of a map do.
pub open spec fn names_differ(members: Seq<MemberModel>) -> bool {
    forall|i: int, j: int|
        0 <= i < j < members.len() ==> (#[trigger] members[i]).0 != (#[trigger] members[j]).0
}

/// The invariant of documents: in every object, at whatever depth, the
/// members have names that differ from each other.
pub open spec fn is_well_formed(value: DocumentModel) -> bool
    decreases value,
{
    match value {
        DocumentModel::Array(elements) => forall|i: int|
            0 <= i < elements.len() ==> is_well_formed(#[trigger] elements[i]),
        DocumentModel::Object(members) => {
            &&& names_differ(members)
            &&& forall|i: int|
                0 <= i < members.len() ==> is_well_formed((#[trigger] members[i]).1)
        },
        _ => true,
    }
}

/// A value with no parts of its own that can be tested for a match: a
/// boolean, a number or a string.
pub open spec fn is_scalar(value: DocumentModel) -> bool {
    value is Bool || value is Number || value is String
}

/// The text of a boolean.
pub open spec fn bool_text(b: bool) -> Seq<char> {
    if b {
        seq!['t', 'r', 'u', 'e']
    } else {
        seq!['f', 'a', 'l', 's', 'e']
    }
}

/// The text that a scalar is matched by: `true` or `false` for a boolean,
/// the canonical decimal form of a number, the characters of a string
/// without quotes around them. Other values have none.
pub open spec fn scalar_text(value: DocumentModel) -> Option<Seq<char>> {
    match value {
        DocumentModel::Bool(b) => Some(bool_text(b)),
        DocumentModel::Number(n) => Some(n),
        DocumentModel::String(s) => Some(s),
        _ => None,
    }
}

/// The value of the first member with a given name.
pub open spec fn member(members: Seq<MemberModel>, name: Seq<char>) -> Option<DocumentModel>
    decreases members.len(),
{
    if members.len() == 0 {
        None
    } else if members[0].0 == name {
        Some(members[0].1)
    } else {
        member(members.skip(1), name)
    }
}

/// A member that no earlier member shares its name with is the one that
/// the name finds.
pub proof fn lemma_member_at(members: Seq<MemberModel>, name: Seq<char>, k: int)
    requires
        0 <= k < members.len(),
        members[k].0 == name,
        forall|j: int| 0 <= j < k ==> (#[trigger] members[j]).0 != name,
    ensures
        member(members, name) == Some(members[k].1),
    decreases k,
{
    if k > 0 {
        lemma_member_at(members.skip(1), name, k - 1);
    }
}

/// A name that no member has finds nothing.
pub proof fn lemma_member_absent(members: Seq<MemberModel>, name: Seq<char>)
    requires
        forall|j: int| 0 <= j < members.len() ==> (#[trigger] members[j]).0 != name,
    ensures
        member(members, name) is None,
    decreases members.len(),
{
    if members.len() > 0 {
        lemma_member_absent(members.skip(1), name);
    }
}

/// Among members whose names differ, each is the one that its name
/// finds.
pub proof fn lemma_member_of_distinct(members: Seq<MemberModel>, k: int)
    requires
        names_differ(members),
        0 <= k < members.len(),
    ensures
        member(members, members[k].0) == Some(members[k].1),
{
    assert forall|j: int| 0 <= j < k implies (#[trigger] members[j]).0 != members[k].0 by {
        assert(members[j].0 != members[k].0);
    }
    lemma_member_at(members, members[k].0, k);
}

/// Whether a name occurs among the members before position `end`.
fn name_occurs(members: &Vec<(String, Value)>, name: &str, end: usize) -> (r: bool)
    requires
        end <= members.len(),
    ensures
        r == exists|j: int| 0 <= j < end && (#[trigger] members@[j]).0@ == name@,
{
    let mut j: usize = 0;
    while j < end
        invariant
            j <= end <= members.len(),
            forall|i: int| 0 <= i < j ==> (#[trigger] members@[i]).0@ != name@,
        decreases end - j,
    {
        if str_eq(members[j].0.as_str(), name) {
            return true;
        }
        j += 1;
    }
    false
}

impl Value {
    /// Tests the invariant of documents: whether in every object, at
    /// whatever depth, the members have names that differ from each other.
    pub fn is_well_formed(&self) -> (r: bool)
        ensures
            r == is_well_formed(self@),
        decreases self,
    {
        match self {
            Value::Array(a) => {
                proof {
                    lemma_array_model(*a);
                }
                let mut k: usize = 0;
                while k < a.len()
                    invariant
                        k <= a.len(),
                        *self == Value::Array(*a),
                        self@ matches DocumentModel::Array(models) && models.len() == a@.len()
                            && forall|i: int|
                            0 <= i < a@.len() ==> #[trigger] models[i] == a@[i]@,
                        forall|i: int| 0 <= i < k ==> is_well_formed(#[trigger] a@[i]@),
                    decreases a.len() - k,
                {
                    assert(decreases_to!(self => a@[k as int])) by {
                        assert(decreases_to!(*self => self->Array_0));
                    }
                    if !a[k].is_well_formed() {
                        assert(!is_well_formed(self@->Array_0[k as int]));
                        return false;
                    }
                    k += 1;
                }
                assert forall|i: int| 0 <= i < self@->Array_0.len() implies is_well_formed(
                    #[trigger] self@->Array_0[i],
                ) by {
                    assert(is_well_formed(a@[i]@));
                }
                true
            },
            Value::Object(m) => {
                proof {
                    lemma_object_model(*m);
                }
                let ghost models = self@->Object_0;
                let mut k: usize = 0;
                while k < m.len()
                    invariant
                        k <= m.len(),
                        *self == Value::Object(*m),
                        self@ == DocumentModel::Object(models),
                        models.len() == m@.len(),
                        forall|i: int|
                            0 <= i < m@.len() ==> #[trigger] models[i] == (m@[i].0@, m@[i].1@),
                        forall|i: int, j: int|
                            0 <= i < j < k ==> (#[trigger] models[i]).0 != (
                            #[trigger] models[j]).0,
                        forall|i: int| 0 <= i < k ==> is_well_formed((#[trigger] models[i]).1),
                    decreases m.len() - k,
                {
                    if name_occurs(m, m[k].0.as_str(), k) {
                        proof {
                            let j = choose|j: int|
                                0 <= j < k && (#[trigger] m@[j]).0@ == m@[k as int].0@;
                            assert(models[j].0 == models[k as int].0);
                            assert(!names_differ(models));
                        }
                        return false;
                    }
                    assert(decreases_to!(self => m@[k as int].1)) by {
                        assert(decreases_to!(*self => self->Object_0));
                        assert(decreases_to!(m@[k as int] => m@[k as int].1));
                    }
                    if !m[k].1.is_well_formed() {
                        assert(!is_well_formed(models[k as int].1));
                        return false;
                    }
                    assert forall|i: int, j: int| 0 <= i < j < k + 1 implies (
                    #[trigger] models[i]).0 != (#[trigger] models[j]).0 by {
                        if j == k {
                            assert(m@[i].0@ != m@[k as int].0@);
                        }
                    }
                    k += 1;
                }
                true
            },
            _ => true,
        }
    }

    /// The text that a scalar is matched by, if the value is a scalar.
    pub fn text(&self) -> (r: Option<&str>)
        ensures
            match r {
                Some(text) => scalar_text(self@) == Some(text@),
                None => scalar_text(self@) is None,
            },
    {
        match self {
            Value::Bool(b) => {
                proof {
                    reveal_strlit("true");
                    reveal_strlit("false");
                }
                let text = if *b {
                    "true"
                } else {
                    "false"
                };
                assert(text@ =~= bool_text(*b));
                Some(text)
            },
            Value::Number(n) => Some(n.as_str()),
            Value::String(s) => Some(s.as_str()),
            _ => None,
        }
    }

    /// Whether two values are the same document.
    fn same(&self, other: &Value) -> (r: bool)
        ensures
            r == (self@ == other@),
        decreases self,
    {
        match (self, other) {
            (Value::Null, Value::Null) => true,
            (Value::Bool(a), Value::Bool(b)) => *a == *b,
            (Value::Number(a), Value::Number(b)) => str_eq(a.as_str(), b.as_str()),
            (Value::String(a), Value::String(b)) => str_eq(a.as_str(), b.as_str()),
            (Value::Array(a), Value::Array(b)) => {
                proof {
                    lemma_array_model(*a);
                    lemma_array_model(*b);
                }
                if a.len() != b.len() {
                    return false;
                }
                let mut k: usize = 0;
                while k < a.len()
                    invariant
                        k <= a.len(),
                        a.len() == b.len(),
                        *self == Value::Array(*a),
                        *other == Value::Array(*b),
                        self@ matches DocumentModel::Array(models) && models.len() == a@.len()
                            && forall|i: int|
                            0 <= i < a@.len() ==> #[trigger] models[i] == a@[i]@,
                        other@ matches DocumentModel::Array(models) && models.len() == b@.len()
                            && forall|i: int|
                            0 <= i < b@.len() ==> #[trigger] models[i] == b@[i]@,
                        forall|i: int| 0 <= i < k ==> a@[i]@ == b@[i]@,
                    decreases a.len() - k,
                {
                    assert(decreases_to!(self => a@[k as int])) by {
                        assert(decreases_to!(*self => self->Array_0));
                    }
                    if !a[k].same(&b[k]) {
                        assert(self@->Array_0[k as int] != other@->Array_0[k as int]);
                        return false;
                    }
                    k += 1;
                }
                assert(self@->Array_0 =~= other@->Array_0);
                true
            },
            (Value::Object(a), Value::Object(b)) => {
                proof {
                    lemma_object_model(*a);
                    lemma_object_model(*b);
                }
                if a.len() != b.len() {
                    return false;
                }
                let mut k: usize = 0;
                while k < a.len()
                    invariant
                        k <= a.len(),
                        a.len() == b.len(),
                        *self == Value::Object(*a),
                        *other == Value::Object(*b),
                        self@ matches DocumentModel::Object(models) && models.len() == a@.len()
                            && forall|i: int|
                            0 <= i < a@.len() ==> #[trigger] models[i] == (
                                a@[i].0@,
                                a@[i].1@,
                            ),
                        other@ matches DocumentModel::Object(models) && models.len() == b@.len()
                            && forall|i: int|
                            0 <= i < b@.len() ==> #[trigger] models[i] == (
                                b@[i].0@,
                                b@[i].1@,
                            ),
                        forall|i: int|
                            0 <= i < k ==> a@[i].0@ == b@[i].0@ && a@[i].1@ == b@[i].1@,
                    decreases a.len() - k,
                {
                    assert(decreases_to!(self => a@[k as int].1)) by {
                        assert(decreases_to!(*self => self->Object_0));
                        assert(decreases_to!(a@[k as int] => a@[k as int].1));
                    }
                    if !str_eq(a[k].0.as_str(), b[k].0.as_str()) || !a[k].1.same(&b[k].1) {
                        assert(self@->Object_0[k as int] != other@->Object_0[k as int]);
                        return false;
                    }
                    k += 1;
                }
                assert(self@->Object_0 =~= other@->Object_0);
                true
            },
            _ => false,
        }
    }

    /// A copy of a value.
    fn copy(&self) -> (r: Value)
        ensures
            r@ == self@,
        decreases self,
    {
        match self {
            Value::Null => Value::Null,
            Value::Bool(b) => Value::Bool(*b),
            Value::Number(n) => Value::Number(n.clone()),
            Value::String(s) => Value::String(s.clone()),
            Value::Array(a) => {
                let mut elements: Vec<Value> = Vec::new();
                let mut k: usize = 0;
                while k < a.len()
                    invariant
                        k <= a.len(),
                        elements.len() == k,
                        *self == Value::Array(*a),
                        forall|i: int| 0 <= i < k ==> elements@[i]@ == a@[i]@,
                    decreases a.len() - k,
                {
                    assert(decreases_to!(self => a@[k as int])) by {
                        assert(decreases_to!(*self => self->Array_0));
                    }
                    elements.push(a[k].copy());
                    k += 1;
                }
                proof {
                    lemma_array_model(*a);
                    lemma_array_model(elements);
                    assert(Value::Array(elements)@->Array_0 =~= self@->Array_0);
                }
                Value::Array(elements)
            },
            Value::Object(m) => {
                let mut members: Vec<(String, Value)> = Vec::new();
                let mut k: usize = 0;
                while k < m.len()
                    invariant
                        k <= m.len(),
                        members.len() == k,
                        *self == Value::Object(*m),
                        forall|i: int|
                            0 <= i < k ==> members@[i].0@ == m@[i].0@ && members@[i].1@
                                == m@[i].1@,
                    decreases m.len() - k,
                {
                    assert(decreases_to!(self => m@[k as int].1)) by {
                        assert(decreases_to!(*self => self->Object_0));
                        assert(decreases_to!(m@[k as int] => m@[k as int].1));
                    }
                    members.push((m[k].0.clone(), m[k].1.copy()));
                    k += 1;
                }
                proof {
                    lemma_object_model(*m);
                    lemma_object_model(members);
                    assert(Value::Object(members)@->Object_0 =~= self@->Object_0);
                }
                Value::Object(members)
            },
        }
    }
}

impl Clone for Value {
    fn clone(&self) -> (r: Self)
        ensures
            r@ == self@,
    {
        self.copy()
    }
}

impl PartialEq for Value {
    fn eq(&self, other: &Self) -> (r: bool) {
        self.same(other)
    }
}

impl PartialEqSpecImpl for Value {
    open spec fn obeys_eq_spec() -> bool {
        true
    }

    open spec fn eq_spec(&self, other: &Self) -> bool {
        self@ == other@
    }
}

} // verus!
