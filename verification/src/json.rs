//! The JSON that requests and replies are made of.

use vstd::prelude::*;

use crate::text;

verus! {

/// A JSON value of the crate `serde_json`, carried through as it is.
#[verifier::external_type_specification]
#[verifier::external_body]
pub struct ExValue(serde_json::Value);

/// The compact text of a JSON value.
pub uninterp spec fn value_text(value: serde_json::Value) -> Seq<char>;

/// What a request reads of one JSON value: a text, the members of an object with
/// those that are texts, null, or that it is something else.
pub ghost enum FieldView {
    Null,
    Text(Seq<char>),
    Object(Seq<(Seq<char>, Option<Seq<char>>)>),
    Other,
}

/// A member of an object: its name, what is read of it, and its compact text.
pub ghost struct MemberView {
    pub name: Seq<char>,
    pub field: FieldView,
    pub json: Seq<char>,
}

/// What a request reads of one JSON value.
pub enum Field {
    Null,
    Text(String),
    Object(Vec<(String, Option<String>)>),
    Other,
}

/// The texts behind the members of an object.
pub open spec fn entries(list: Seq<(String, Option<String>)>) -> Seq<
    (Seq<char>, Option<Seq<char>>),
> {
    list.map_values(|e: (String, Option<String>)| (e.0@, text::optional_text(e.1)))
}

impl View for Field {
    type V = FieldView;

    open spec fn view(&self) -> FieldView {
        match self {
            Field::Null => FieldView::Null,
            Field::Text(t) => FieldView::Text(t@),
            Field::Object(list) => FieldView::Object(entries(list@)),
            Field::Other => FieldView::Other,
        }
    }
}

/// A member of an object.
pub struct Member {
    pub name: String,
    pub field: Field,
    pub value: serde_json::Value,
}

impl View for Member {
    type V = MemberView;

    open spec fn view(&self) -> MemberView {
        MemberView { name: self.name@, field: self.field@, json: value_text(self.value) }
    }
}

/// The plain values behind a list of members.
pub open spec fn members_view(list: Seq<Member>) -> Seq<MemberView> {
    list.map_values(|m: Member| m@)
}

/// What a text stands for as JSON, as plain values.
pub ghost enum ParsedView {
    Refused,
    Other,
    Object(Seq<MemberView>),
}

/// What a text stands for as JSON: nothing, a value that is no object, or an object
/// with its members.
pub enum Parsed {
    Refused,
    Other,
    Object(Vec<Member>),
}

impl View for Parsed {
    type V = ParsedView;

    open spec fn view(&self) -> ParsedView {
        match self {
            Parsed::Refused => ParsedView::Refused,
            Parsed::Other => ParsedView::Other,
            Parsed::Object(members) => ParsedView::Object(members_view(members@)),
        }
    }
}

/// What a text stands for as JSON.
pub uninterp spec fn json_parsed(text: Seq<char>) -> ParsedView;

/// The members of the JSON object that a text stands for; none where it stands
/// for something else.
pub open spec fn json_members(text: Seq<char>) -> Seq<MemberView> {
    match json_parsed(text) {
        ParsedView::Object(members) => members,
        _ => seq![],
    }
}

/// No two members have the same name.
pub open spec fn distinct_names<V>(list: Seq<(Seq<char>, V)>) -> bool {
    forall|i: int, j: int|
        0 <= i < j < list.len() ==> (#[trigger] list[i]).0 != (#[trigger] list[j]).0
}

/// No two members of an object have the same name, nor have two members of an object
/// that is one of them.
pub open spec fn is_well_named(parsed: ParsedView) -> bool {
    parsed matches ParsedView::Object(members) ==> {
        &&& forall|i: int, j: int|
            0 <= i < j < members.len() ==> (#[trigger] members[i]).name
                != (#[trigger] members[j]).name
        &&& forall|i: int|
            0 <= i < members.len() ==> ((#[trigger] members[i]).field matches FieldView::Object(
                list,
            ) ==> distinct_names(list))
    }
}

/// `serde_json::from_str`, and the members of the object that it returns, in the
/// order of its map. They depend on the text alone, and a map holds no name twice.
#[verifier::external_body]
pub(crate) fn parse_object(text: &str) -> (parsed: Parsed)
    ensures
        parsed@ == json_parsed(text@),
        is_well_named(parsed@),
{
    let map = match serde_json::from_str(text) {
        Err(_) => return Parsed::Refused,
        Ok(serde_json::Value::Object(map)) => map,
        Ok(_) => return Parsed::Other,
    };
    Parsed::Object(map.into_iter().map(|(name, value)| Member {
        name,
        field: match &value {
            serde_json::Value::Null => Field::Null,
            serde_json::Value::String(s) => Field::Text(s.clone()),
            serde_json::Value::Object(m) => Field::Object(
                m.iter().map(|(k, v)| (k.clone(), v.as_str().map(String::from))).collect()),
            _ => Field::Other },
        value }).collect())
}

/// `serde_json::Value::Object` of an empty map, whose text is a pair of braces.
#[verifier::external_body]
pub(crate) fn empty_object() -> (value: serde_json::Value)
    ensures
        value_text(value) == "{}"@,
{
    serde_json::Value::Object(serde_json::Map::new())
}

/// `clone` of a `serde_json::Value`, which keeps its text.
#[verifier::external_body]
pub(crate) fn copy_value(value: &serde_json::Value) -> (r: serde_json::Value)
    ensures
        value_text(r) == value_text(*value),
{
    value.clone()
}

/// `i` is the first place of a member with the given name.
pub open spec fn names_at(members: Seq<MemberView>, name: Seq<char>, i: int) -> bool {
    &&& 0 <= i < members.len()
    &&& members[i].name == name
    &&& forall|k: int| 0 <= k < i ==> (#[trigger] members[k]).name != name
}

/// The member with the given name, where there is one.
pub open spec fn member(members: Seq<MemberView>, name: Seq<char>) -> Option<MemberView> {
    if exists|i: int| names_at(members, name, i) {
        Some(members[choose|i: int| names_at(members, name, i)])
    } else {
        None
    }
}

/// What is read of the member with the given name, where there is one.
pub open spec fn lookup(members: Seq<MemberView>, name: Seq<char>) -> Option<FieldView> {
    match member(members, name) {
        Some(m) => Some(m.field),
        None => None,
    }
}

/// The text that is the member with the given name.
pub open spec fn text_field(members: Seq<MemberView>, name: Seq<char>) -> Option<Seq<char>> {
    match lookup(members, name) {
        Some(FieldView::Text(t)) => Some(t),
        _ => None,
    }
}

/// A text without the white space at its two ends, unless nothing is left of it.
pub open spec fn filled(t: Option<Seq<char>>) -> Option<Seq<char>> {
    match t {
        Some(s) => if text::trimmed(s).len() > 0 {
            Some(text::trimmed(s))
        } else {
            None
        },
        None => None,
    }
}

/// Where the member with the given name stands.
pub fn find_member(members: &Vec<Member>, name: &str) -> (r: Option<usize>)
    ensures
        match r {
            Some(i) => names_at(members_view(members@), name@, i as int) && member(
                members_view(members@),
                name@,
            ) == Some(members@[i as int]@),
            None => member(members_view(members@), name@) is None,
        },
{
    let ghost list = members_view(members@);
    let mut i: usize = 0;
    while i < members.len()
        invariant
            list == members_view(members@),
            i <= members@.len(),
            forall|k: int| 0 <= k < i ==> (#[trigger] list[k]).name != name@,
        decreases members.len() - i,
    {
        assert(list[i as int].name == members@[i as int].name@);
        if text::same_text(members[i].name.as_str(), name) {
            proof {
                assert(names_at(list, name@, i as int));
                let k = choose|k: int| names_at(list, name@, k);
                assert(names_at(list, name@, k));
                assert(k == i);
            }
            return Some(i);
        }
        i += 1;
    }
    None
}

/// The text that is the member with the given name.
pub fn get_text(members: &Vec<Member>, name: &str) -> (r: Option<String>)
    ensures
        text::optional_text(r) == text_field(members_view(members@), name@),
{
    match find_member(members, name) {
        Some(i) => match &members[i].field {
            Field::Text(t) => Some(t.clone()),
            _ => None,
        },
        None => None,
    }
}

/// A text without the white space at its two ends, unless nothing is left of it.
pub fn fill(t: &Option<String>) -> (r: Option<String>)
    ensures
        text::optional_text(r) == filled(text::optional_text(*t)),
{
    match t {
        Some(s) => {
            let trimmed = text::trim(s.as_str());
            if trimmed.as_str().is_empty() {
                None
            } else {
                Some(trimmed)
            }
        },
        None => None,
    }
}

/// The trimmed text that is the member with the given name, unless it is empty.
pub fn get_filled(members: &Vec<Member>, name: &str) -> (r: Option<String>)
    ensures
        text::optional_text(r) == filled(text_field(members_view(members@), name@)),
{
    fill(&get_text(members, name))
}

/// A value of a reply.
pub ghost enum OutView {
    Null,
    Text(Seq<char>),
    Object(Seq<(Seq<char>, Seq<char>)>),
}

/// A value of a reply: null, a text, or an object of texts.
pub enum Out {
    Null,
    Text(String),
    Object(Vec<(String, String)>),
}

impl View for Out {
    type V = OutView;

    open spec fn view(&self) -> OutView {
        match self {
            Out::Null => OutView::Null,
            Out::Text(t) => OutView::Text(t@),
            Out::Object(list) => OutView::Object(text::pairs(list@)),
        }
    }
}

/// The plain values behind the members of a reply.
pub open spec fn outs(list: Seq<(String, Out)>) -> Seq<(Seq<char>, OutView)> {
    list.map_values(|p: (String, Out)| (p.0@, p.1@))
}

/// Whether a value that was read is the one that was written. The members of an
/// object come back in some order.
pub open spec fn reads_back(field: Option<FieldView>, out: OutView) -> bool {
    match out {
        OutView::Null => field == Some(FieldView::Null),
        OutView::Text(t) => field == Some(FieldView::Text(t)),
        OutView::Object(list) => distinct_names(list) ==> {
            &&& field matches Some(FieldView::Object(found))
            &&& distinct_names(found)
            &&& found.to_set() == list.map_values(
                |p: (Seq<char>, Seq<char>)| (p.0, Some(p.1)),
            ).to_set()
        },
    }
}

/// The compact text of an object with the given members.
pub uninterp spec fn json_text(members: Seq<(Seq<char>, OutView)>) -> Seq<char>;

/// Whether every name that was found is one that was written.
pub open spec fn only_written(
    found: Seq<MemberView>,
    members: Seq<(Seq<char>, OutView)>,
) -> bool {
    forall|j: int|
        0 <= j < found.len() ==> exists|i: int|
            0 <= i < members.len() && (#[trigger] members[i]).0 == (#[trigger] found[j]).name
}

/// A text reads as an object with the members that were written, and no others.
pub open spec fn reads_as(text: Seq<char>, members: Seq<(Seq<char>, OutView)>) -> bool {
    &&& json_parsed(text) matches ParsedView::Object(found)
    &&& found.len() == members.len()
    &&& only_written(found, members)
    &&& forall|i: int|
        0 <= i < members.len() ==> reads_back(
            lookup(found, members[i].0),
            #[trigger] members[i].1,
        )
}

/// What was not written is not found.
pub proof fn lemma_not_written(
    found: Seq<MemberView>,
    members: Seq<(Seq<char>, OutView)>,
    name: Seq<char>,
)
    requires
        only_written(found, members),
        forall|i: int| 0 <= i < members.len() ==> (#[trigger] members[i]).0 != name,
    ensures
        lookup(found, name) is None,
{
    if lookup(found, name) is Some {
        let k = choose|k: int| names_at(found, name, k);
        assert(names_at(found, name, k));
        assert(found[k].name == name);
    }
}

/// Whatever members a text was written with, reading it gives them back.
pub open spec fn is_readable(text: Seq<char>) -> bool {
    forall|m: Seq<(Seq<char>, OutView)>| #[trigger]
        json_text(m) == text && distinct_names(m) ==> reads_as(text, m)
}

/// `to_string` of a `serde_json` object with the given members. The text depends
/// on them alone, and reading it as JSON gives the members back, and no others.
#[verifier::external_body]
pub(crate) fn object_text(members: Vec<(String, Out)>) -> (text: String)
    ensures
        text@ == json_text(outs(members@)),
        forall|m: Seq<(Seq<char>, OutView)>| #[trigger]
            json_text(m) == text@ && distinct_names(m) ==> reads_as(text@, m),
{
    let map: serde_json::Map<String, serde_json::Value> = members.into_iter().map(|(name, out)| (
        name,
        match out {
            Out::Null => serde_json::Value::Null,
            Out::Text(t) => serde_json::Value::String(t),
            Out::Object(list) => list.into_iter().collect(),
        },
    )).collect();
    serde_json::Value::Object(map).to_string()
}

/// A member is found by its name wherever it stands, with what it holds as it is; where
/// a name comes twice the first one counts, and a name that does not come is not found.
pub proof fn law_member_is_found(
    before: Seq<MemberView>,
    found: MemberView,
    behind: Seq<MemberView>,
    name: Seq<char>,
)
    requires
        forall|i: int| 0 <= i < before.len() ==> (#[trigger] before[i]).name != found.name,
        forall|i: int| 0 <= i < before.len() ==> (#[trigger] before[i]).name != name,
    ensures
        member(before + seq![found] + behind, found.name) == Some(found),
        lookup(before + seq![found] + behind, found.name) == Some(found.field),
        member(before, name) is None,
        lookup(before, name) is None,
        found.field matches FieldView::Text(t) ==> text_field(
            before + seq![found] + behind,
            found.name,
        ) == Some(t),
        !(found.field is Text) ==> text_field(before + seq![found] + behind, found.name) is None,
        text_field(before, name) is None,
{
    let all = before + seq![found] + behind;
    let at = before.len() as int;
    assert(all[at] == found);
    assert forall|k: int| 0 <= k < at implies (#[trigger] all[k]).name != found.name by {
        assert(all[k] == before[k]);
    }
    assert(names_at(all, found.name, at));
    let k = choose|k: int| names_at(all, found.name, k);
    assert(names_at(all, found.name, k));
    assert(k == at) by {
        if k < at {
            assert(all[k].name != found.name);
        }
        if at < k {
            assert(all[at].name != found.name);
        }
    }
    if exists|i: int| names_at(before, name, i) {
        let i = choose|i: int| names_at(before, name, i);
        assert(before[i].name != name);
    }
}

/// A text counts without the white space at its ends, and not at all where nothing else
/// is in it.
pub proof fn law_filled(before: Seq<char>, core: Seq<char>, behind: Seq<char>)
    requires
        forall|i: int| 0 <= i < before.len() ==> text::white_space(#[trigger] before[i]),
        forall|i: int| 0 <= i < behind.len() ==> text::white_space(#[trigger] behind[i]),
        core.len() > 0 ==> !text::white_space(core.first()) && !text::white_space(core.last()),
    ensures
        core.len() > 0 ==> filled(Some(before + core + behind)) == Some(core),
        core.len() == 0 ==> filled(Some(before + core + behind)) is None,
        filled(None) is None,
{
    assert forall|i: int| 0 <= i < before.len() implies text::pads(#[trigger] before[i], false) by {
        assert(text::white_space(before[i]));
    }
    assert forall|i: int| 0 <= i < behind.len() implies text::pads(#[trigger] behind[i], false) by {
        assert(text::white_space(behind[i]));
    }
    text::law_trimming_keeps_what_stands_inside(before, core, behind, false);
}

} // verus!
