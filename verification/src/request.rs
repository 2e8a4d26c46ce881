//! What a client asks for: the members of its JSON request that matter.

use vstd::prelude::*;
use vstd::utf8::*;

use crate::encoding;
use crate::json;
use crate::json::{Field, Member, Parsed};
use crate::text;

verus! {

/// Temporary credentials for the key service.
pub struct AwsCredsPayload {
    pub access_key_id: String,
    pub secret_access_key: String,
    pub token: String,
}

/// Temporary credentials, as plain values.
pub ghost struct CredsView {
    pub access_key_id: Seq<char>,
    pub secret_access_key: Seq<char>,
    pub token: Seq<char>,
}

impl View for AwsCredsPayload {
    type V = CredsView;

    open spec fn view(&self) -> CredsView {
        CredsView {
            access_key_id: self.access_key_id@,
            secret_access_key: self.secret_access_key@,
            token: self.token@,
        }
    }
}

/// The plain values behind optional credentials.
pub open spec fn optional_creds(c: Option<AwsCredsPayload>) -> Option<CredsView> {
    match c {
        Some(creds) => Some(creds@),
        None => None,
    }
}

/// The plain values behind what reading credentials gave.
pub open spec fn to_creds_result(r: Result<Option<AwsCredsPayload>, String>) -> Result<
    Option<CredsView>,
    Seq<char>,
> {
    match r {
        Ok(c) => Ok(optional_creds(c)),
        Err(e) => Err(e@),
    }
}

/// `i` is the first place of an entry with the given name.
pub open spec fn entry_at(
    list: Seq<(Seq<char>, Option<Seq<char>>)>,
    name: Seq<char>,
    i: int,
) -> bool {
    &&& 0 <= i < list.len()
    &&& list[i].0 == name
    &&& forall|k: int| 0 <= k < i ==> (#[trigger] list[k]).0 != name
}

/// The text of the entry with the given name.
pub open spec fn entry(list: Seq<(Seq<char>, Option<Seq<char>>)>, name: Seq<char>) -> Option<
    Seq<char>,
> {
    if exists|i: int| entry_at(list, name, i) {
        list[choose|i: int| entry_at(list, name, i)].1
    } else {
        None
    }
}

/// The trimmed text of the entry with the given name, unless it is empty.
fn get_entry(list: &Vec<(String, Option<String>)>, name: &str) -> (r: Option<String>)
    ensures
        text::optional_text(r) == json::filled(entry(json::entries(list@), name@)),
{
    let ghost view = json::entries(list@);
    let mut i: usize = 0;
    while i < list.len()
        invariant
            view == json::entries(list@),
            i <= list@.len(),
            forall|k: int| 0 <= k < i ==> (#[trigger] view[k]).0 != name@,
        decreases list.len() - i,
    {
        assert(view[i as int].0 == list@[i as int].0@);
        if text::same_text(list[i].0.as_str(), name) {
            proof {
                assert(entry_at(view, name@, i as int));
                let k = choose|k: int| entry_at(view, name@, k);
                assert(entry_at(view, name@, k));
                assert(k == i);
            }
            return json::fill(&list[i].1);
        }
        i += 1;
    }
    None
}

/// What `aws_creds` comes to. Without it, or with an empty object, the
/// environment has to provide credentials; a part of them is not enough.
pub open spec fn aws_creds_result(members: Seq<json::MemberView>) -> Result<
    Option<CredsView>,
    Seq<char>,
> {
    match json::lookup(members, "aws_creds"@) {
        None | Some(json::FieldView::Null) => Ok(None),
        Some(json::FieldView::Object(o)) => if o.len() == 0 {
            Ok(None)
        } else {
            match (
                json::filled(entry(o, "AccessKeyId"@)),
                json::filled(entry(o, "SecretAccessKey"@)),
                json::filled(entry(o, "Token"@)),
            ) {
                (Some(a), Some(s), Some(t)) => Ok(
                    Some(CredsView { access_key_id: a, secret_access_key: s, token: t }),
                ),
                _ => Err(
                    "aws_creds: AccessKeyId, SecretAccessKey, and Token are required together"@,
                ),
            }
        },
        _ => Err("aws_creds must be a JSON object"@),
    }
}

/// Reads `aws_creds`.
pub fn parse_aws_creds(members: &Vec<Member>) -> (r: Result<Option<AwsCredsPayload>, String>)
    ensures
        to_creds_result(r) == aws_creds_result(json::members_view(members@)),
{
    let at: usize = match json::find_member(members, "aws_creds") {
        None => {
            return Ok(None);
        },
        Some(i) => i,
    };
    match &members[at].field {
        Field::Null => Ok(None),
        Field::Object(o) => {
            assert(json::entries(o@).len() == o@.len());
            if o.len() == 0 {
                return Ok(None);
            }
            match (
                get_entry(o, "AccessKeyId"),
                get_entry(o, "SecretAccessKey"),
                get_entry(o, "Token"),
            ) {
                (Some(a), Some(s), Some(t)) => Ok(
                    Some(AwsCredsPayload { access_key_id: a, secret_access_key: s, token: t }),
                ),
                _ => Err(
                    "aws_creds: AccessKeyId, SecretAccessKey, and Token are required together".to_string(),
                ),
            }
        },
        _ => Err("aws_creds must be a JSON object".to_string()),
    }
}

/// A request, as plain values. `secrets` is nothing where the member is there and
/// is no object; `payload` is JSON text.
pub ghost struct RequestView {
    pub action: Seq<char>,
    pub agent_name: Seq<char>,
    pub encrypted_code: Option<Seq<char>>,
    pub encrypted_aes_key: Option<Seq<char>>,
    pub sealed_aes_key: Option<Seq<char>>,
    pub aes_iv: Option<Seq<char>>,
    pub creds: Result<Option<CredsView>, Seq<char>>,
    pub agent_code: Seq<char>,
    pub secrets: Option<Seq<(Seq<char>, Option<Seq<char>>)>>,
    pub encrypted_key: Option<Seq<char>>,
    pub payload: Seq<char>,
}

/// A request. `secrets` is nothing where the member is there and is no object.
pub struct Request {
    pub action: String,
    pub agent_name: String,
    pub encrypted_code: Option<String>,
    pub encrypted_aes_key: Option<String>,
    pub sealed_aes_key: Option<String>,
    pub aes_iv: Option<String>,
    pub creds: Result<Option<AwsCredsPayload>, String>,
    pub agent_code: String,
    pub secrets: Option<Vec<(String, Option<String>)>>,
    pub encrypted_key: Option<String>,
    pub payload: serde_json::Value,
}

/// The plain values behind optional entries.
pub open spec fn optional_entries(e: Option<Vec<(String, Option<String>)>>) -> Option<
    Seq<(Seq<char>, Option<Seq<char>>)>,
> {
    match e {
        Some(list) => Some(json::entries(list@)),
        None => None,
    }
}

impl View for Request {
    type V = RequestView;

    open spec fn view(&self) -> RequestView {
        RequestView {
            action: self.action@,
            agent_name: self.agent_name@,
            encrypted_code: text::optional_text(self.encrypted_code),
            encrypted_aes_key: text::optional_text(self.encrypted_aes_key),
            sealed_aes_key: text::optional_text(self.sealed_aes_key),
            aes_iv: text::optional_text(self.aes_iv),
            creds: to_creds_result(self.creds),
            agent_code: self.agent_code@,
            secrets: optional_entries(self.secrets),
            encrypted_key: text::optional_text(self.encrypted_key),
            payload: json::value_text(self.payload),
        }
    }
}

/// The text of a member, or another text where there is none.
pub open spec fn text_or(t: Option<Seq<char>>, other: Seq<char>) -> Seq<char> {
    match t {
        Some(s) => s,
        None => other,
    }
}

/// The agent code in a request: not empty, and a placeholder where there is none.
pub open spec fn agent_code(members: Seq<json::MemberView>) -> Seq<char> {
    match json::text_field(members, "agent_code"@) {
        Some(s) => if s.len() > 0 {
            s
        } else {
            "'No code provided';"@
        },
        None => "'No code provided';"@,
    }
}

/// The secrets in a request: none where the member is not there or is null.
pub open spec fn secrets(members: Seq<json::MemberView>) -> Option<
    Seq<(Seq<char>, Option<Seq<char>>)>,
> {
    match json::lookup(members, "secrets"@) {
        None | Some(json::FieldView::Null) => Some(seq![]),
        Some(json::FieldView::Object(list)) => Some(list),
        _ => None,
    }
}

/// The payload in a request: an empty object where there is none.
pub open spec fn payload(members: Seq<json::MemberView>) -> Seq<char> {
    match json::member(members, "request_payload"@) {
        Some(m) => m.json,
        None => "{}"@,
    }
}

/// What the members of a JSON object ask for.
pub open spec fn request_of(members: Seq<json::MemberView>) -> RequestView {
    RequestView {
        action: text_or(json::text_field(members, "action"@), seq![]),
        agent_name: text_or(json::text_field(members, "agent_name"@), "unknown"@),
        encrypted_code: json::filled(json::text_field(members, "encrypted_code_b64"@)),
        encrypted_aes_key: json::filled(json::text_field(members, "encrypted_aes_key_b64"@)),
        sealed_aes_key: json::filled(json::text_field(members, "kms_sealed_aes_key_b64"@)),
        aes_iv: json::filled(json::text_field(members, "aes_iv_b64"@)),
        creds: aws_creds_result(members),
        agent_code: agent_code(members),
        secrets: secrets(members),
        encrypted_key: json::filled(json::text_field(members, "encrypted_key_b64"@)),
        payload: payload(members),
    }
}

fn get_agent_code(members: &Vec<Member>) -> (r: String)
    ensures
        r@ == agent_code(json::members_view(members@)),
{
    match json::get_text(members, "agent_code") {
        Some(s) => {
            if s.as_str().is_empty() {
                "'No code provided';".to_string()
            } else {
                s
            }
        },
        None => "'No code provided';".to_string(),
    }
}

/// The same entries once more.
fn copy_entries(list: &Vec<(String, Option<String>)>) -> (r: Vec<(String, Option<String>)>)
    ensures
        json::entries(r@) == json::entries(list@),
{
    let mut r: Vec<(String, Option<String>)> = Vec::new();
    let mut i: usize = 0;
    while i < list.len()
        invariant
            i <= list@.len(),
            json::entries(r@) == json::entries(list@).take(i as int),
        decreases list.len() - i,
    {
        let value = match &list[i].1 {
            Some(s) => Some(s.clone()),
            None => None,
        };
        let ghost before = r@;
        r.push((list[i].0.clone(), value));
        assert(json::entries(r@) =~= json::entries(before).push(json::entries(list@)[i as int]));
        assert(json::entries(list@).take(i + 1) =~= json::entries(list@).take(i as int).push(
            json::entries(list@)[i as int],
        ));
        i += 1;
    }
    assert(json::entries(list@).take(i as int) =~= json::entries(list@));
    r
}

fn get_secrets(members: &Vec<Member>) -> (r: Option<Vec<(String, Option<String>)>>)
    ensures
        optional_entries(r) == secrets(json::members_view(members@)),
{
    match json::find_member(members, "secrets") {
        None => {
            let none: Vec<(String, Option<String>)> = Vec::new();
            assert(json::entries(none@) =~= seq![]);
            Some(none)
        },
        Some(i) => match &members[i].field {
            Field::Null => {
                let none: Vec<(String, Option<String>)> = Vec::new();
                assert(json::entries(none@) =~= seq![]);
                Some(none)
            },
            Field::Object(list) => Some(copy_entries(list)),
            _ => None,
        },
    }
}

/// Takes the payload out of the members.
fn take_payload(members: Vec<Member>) -> (r: serde_json::Value)
    ensures
        json::value_text(r) == payload(json::members_view(members@)),
{
    match json::find_member(&members, "request_payload") {
        None => json::empty_object(),
        Some(i) => {
            let mut members = members;
            members.swap_remove(i).value
        },
    }
}

fn text_or_else(t: Option<String>, other: &str) -> (r: String)
    ensures
        r@ == text_or(text::optional_text(t), other@),
{
    match t {
        Some(s) => s,
        None => other.to_string(),
    }
}

/// What the members of a JSON object ask for.
pub fn request_from(members: Vec<Member>) -> (r: Request)
    ensures
        r@ == request_of(json::members_view(members@)),
{
    let action = text_or_else(json::get_text(&members, "action"), "");
    proof {
        reveal_strlit("");
        assert(""@ =~= Seq::<char>::empty());
    }
    let agent_name = text_or_else(json::get_text(&members, "agent_name"), "unknown");
    let encrypted_code = json::get_filled(&members, "encrypted_code_b64");
    let encrypted_aes_key = json::get_filled(&members, "encrypted_aes_key_b64");
    let sealed_aes_key = json::get_filled(&members, "kms_sealed_aes_key_b64");
    let aes_iv = json::get_filled(&members, "aes_iv_b64");
    let creds = parse_aws_creds(&members);
    let agent_code = get_agent_code(&members);
    let secrets = get_secrets(&members);
    let encrypted_key = json::get_filled(&members, "encrypted_key_b64");
    let payload = take_payload(members);
    Request {
        action,
        agent_name,
        encrypted_code,
        encrypted_aes_key,
        sealed_aes_key,
        aes_iv,
        creds,
        agent_code,
        secrets,
        encrypted_key,
        payload,
    }
}

/// What a text that was read as JSON asks for: one that is refused, or is no object,
/// asks for what an empty object asks for.
pub open spec fn request_of_parsed(parsed: json::ParsedView) -> RequestView {
    match parsed {
        json::ParsedView::Object(members) => request_of(members),
        json::ParsedView::Refused | json::ParsedView::Other => request_of(seq![]),
    }
}

/// What a text that was read as JSON asks for.
pub fn request_or_empty(parsed: Parsed) -> (r: Request)
    ensures
        r@ == request_of_parsed(parsed@),
{
    match parsed {
        Parsed::Object(members) => request_from(members),
        Parsed::Refused | Parsed::Other => {
            let none: Vec<Member> = Vec::new();
            assert(json::members_view(none@) =~= seq![]);
            request_from(none)
        },
    }
}

/// No two secrets of a request have the same name.
pub open spec fn has_distinct_secrets(r: RequestView) -> bool {
    r.secrets matches Some(list) ==> json::distinct_names(list)
}

/// The secrets of a request that came as JSON have different names.
pub proof fn law_secrets_are_distinct(parsed: json::ParsedView)
    requires
        json::is_well_named(parsed),
    ensures
        has_distinct_secrets(request_of_parsed(parsed)),
{
    if let json::ParsedView::Object(members) = parsed {
        if let Some(json::FieldView::Object(list)) = json::lookup(members, "secrets"@) {
            let k = choose|k: int| json::names_at(members, "secrets"@, k);
            assert(json::names_at(members, "secrets"@, k));
            assert(members[k].field == json::FieldView::Object(list));
        }
    } else {
        let none = Seq::<json::MemberView>::empty();
        assert(json::lookup(none, "secrets"@) is None);
    }
}

/// Reads a request from the bytes of a connection: JSON, with what is no UTF-8
/// replaced. Anything that is no JSON object asks for what an empty one asks for.
pub fn read_request(body: &[u8]) -> (r: Request)
    ensures
        r@ == request_of_parsed(json::json_parsed(text::trimmed(encoding::lossy(body@)))),
        forall|s: Seq<char>|
            body@ == #[trigger] encode_utf8(s) ==> r@ == request_of_parsed(
                json::json_parsed(text::trimmed(s)),
            ),
        has_distinct_secrets(r@),
{
    let body_text = encoding::lossy_text(body);
    let parsed = json::parse_object(text::trim(body_text.as_str()).as_str());
    proof {
        assert forall|s: Seq<char>| body@ == #[trigger] encode_utf8(s) implies encoding::lossy(
            body@,
        ) == s by {
            encoding::law_text_reads_back(body@, s);
        }
        law_secrets_are_distinct(parsed@);
    }
    request_or_empty(parsed)
}

/// Credentials are whole or refused: what is accepted has no empty part, and the
/// environment stands in only where nothing was given.
pub proof fn law_creds_are_whole(members: Seq<json::MemberView>)
    ensures
        aws_creds_result(members) matches Ok(Some(c)) ==> {
            &&& c.access_key_id.len() > 0
            &&& c.secret_access_key.len() > 0
            &&& c.token.len() > 0
        },
        aws_creds_result(members) == Ok::<Option<CredsView>, Seq<char>>(None) <==> {
            ||| json::lookup(members, "aws_creds"@) is None
            ||| json::lookup(members, "aws_creds"@) == Some(json::FieldView::Null)
            ||| json::lookup(members, "aws_creds"@) == Some(json::FieldView::Object(seq![]))
        },
{
    if let Some(json::FieldView::Object(o)) = json::lookup(members, "aws_creds"@) {
        if o.len() == 0 {
            assert(o =~= seq![]);
        }
    }
}

/// An entry is found by its name wherever it stands, with its text as it is; where a name
/// comes twice the first one counts, and a name that does not come is not found.
pub proof fn law_entry_is_found(
    before: Seq<(Seq<char>, Option<Seq<char>>)>,
    name: Seq<char>,
    value: Option<Seq<char>>,
    behind: Seq<(Seq<char>, Option<Seq<char>>)>,
)
    requires
        forall|i: int| 0 <= i < before.len() ==> (#[trigger] before[i]).0 != name,
    ensures
        entry(before + seq![(name, value)] + behind, name) == value,
        entry(before, name) is None,
{
    let all = before + seq![(name, value)] + behind;
    let at = before.len() as int;
    assert(all[at] == (name, value));
    assert forall|k: int| 0 <= k < at implies (#[trigger] all[k]).0 != name by {
        assert(all[k] == before[k]);
    }
    assert(entry_at(all, name, at));
    let k = choose|k: int| entry_at(all, name, k);
    assert(entry_at(all, name, k));
    assert(k == at) by {
        if k < at {
            assert(all[k].0 != name);
        }
        if at < k {
            assert(all[at].0 != name);
        }
    }
    if exists|i: int| entry_at(before, name, i) {
        let i = choose|i: int| entry_at(before, name, i);
        assert(before[i].0 != name);
    }
}

/// Credentials are taken from the three entries for them, without the white space at
/// their ends; where one of them is missing or blank all are refused, and so is anything
/// but an object.
pub proof fn law_creds_are_taken(
    members: Seq<json::MemberView>,
    o: Seq<(Seq<char>, Option<Seq<char>>)>,
    id: Seq<char>,
    secret: Seq<char>,
    token: Seq<char>,
)
    requires
        json::lookup(members, "aws_creds"@) == Some(json::FieldView::Object(o)),
        o.len() > 0,
    ensures
        entry(o, "AccessKeyId"@) == Some(id) && entry(o, "SecretAccessKey"@) == Some(secret)
            && entry(o, "Token"@) == Some(token) && text::trimmed(id).len() > 0 && text::trimmed(
            secret,
        ).len() > 0 && text::trimmed(token).len() > 0 ==> aws_creds_result(members) == Ok::<
            Option<CredsView>,
            Seq<char>,
        >(
            Some(
                CredsView {
                    access_key_id: text::trimmed(id),
                    secret_access_key: text::trimmed(secret),
                    token: text::trimmed(token),
                },
            ),
        ),
        forall|name: Seq<char>|
            (name == "AccessKeyId"@ || name == "SecretAccessKey"@ || name == "Token"@) && (
            #[trigger] entry(o, name) is None || text::trimmed(entry(o, name)->0).len() == 0)
                ==> aws_creds_result(members) == Err::<Option<CredsView>, Seq<char>>(
                "aws_creds: AccessKeyId, SecretAccessKey, and Token are required together"@,
            ),
{
}

/// Credentials that are no object are refused.
pub proof fn law_creds_must_be_an_object(members: Seq<json::MemberView>)
    requires
        json::lookup(members, "aws_creds"@) is Some,
        !(json::lookup(members, "aws_creds"@)->0 is Null),
        !(json::lookup(members, "aws_creds"@)->0 is Object),
    ensures
        aws_creds_result(members) == Err::<Option<CredsView>, Seq<char>>(
            "aws_creds must be a JSON object"@,
        ),
{
}

/// A request asks for what its members say: the action, the name and the code are the
/// texts as they are, the Base64 texts are taken without white space at their ends, and
/// the secrets and the payload as they come; what is missing, or is of another kind, has
/// its default.
pub proof fn law_request_says_what_its_members_say(
    members: Seq<json::MemberView>,
    name: Seq<char>,
    t: Seq<char>,
)
    requires
        json::lookup(members, name) == Some(json::FieldView::Text(t)),
    ensures
        ({
            let r = request_of(members);
            let blank = text::trimmed(t).len() == 0;
            let taken = if blank {
                None
            } else {
                Some(text::trimmed(t))
            };
            &&& name == "action"@ ==> r.action == t
            &&& name == "agent_name"@ ==> r.agent_name == t
            &&& name == "agent_code"@ && t.len() > 0 ==> r.agent_code == t
            &&& name == "agent_code"@ && t.len() == 0 ==> r.agent_code == "'No code provided';"@
            &&& name == "encrypted_code_b64"@ ==> r.encrypted_code == taken
            &&& name == "encrypted_aes_key_b64"@ ==> r.encrypted_aes_key == taken
            &&& name == "kms_sealed_aes_key_b64"@ ==> r.sealed_aes_key == taken
            &&& name == "aes_iv_b64"@ ==> r.aes_iv == taken
            &&& name == "encrypted_key_b64"@ ==> r.encrypted_key == taken
            &&& name == "secrets"@ ==> r.secrets is None
        }),
{
}

/// Members that are missing, or are no text where a text is wanted, leave the defaults.
pub proof fn law_missing_members_have_defaults(members: Seq<json::MemberView>, name: Seq<char>)
    requires
        json::lookup(members, name) is None || !(json::lookup(members, name)->0 is Text),
    ensures
        ({
            let r = request_of(members);
            &&& name == "action"@ ==> r.action.len() == 0
            &&& name == "agent_name"@ ==> r.agent_name == "unknown"@
            &&& name == "agent_code"@ ==> r.agent_code == "'No code provided';"@
            &&& name == "encrypted_code_b64"@ ==> r.encrypted_code is None
            &&& name == "encrypted_aes_key_b64"@ ==> r.encrypted_aes_key is None
            &&& name == "kms_sealed_aes_key_b64"@ ==> r.sealed_aes_key is None
            &&& name == "aes_iv_b64"@ ==> r.aes_iv is None
            &&& name == "encrypted_key_b64"@ ==> r.encrypted_key is None
        }),
{
}

/// The secrets are the entries of their object, all of them and in order, or none where
/// there is no such member; the payload is the JSON of its member as it is, or an empty
/// object. Credentials are read from the same members.
pub proof fn law_secrets_and_payload_are_taken_whole(
    members: Seq<json::MemberView>,
    list: Seq<(Seq<char>, Option<Seq<char>>)>,
)
    ensures
        ({
            let r = request_of(members);
            let secrets = json::lookup(members, "secrets"@);
            let payload = json::member(members, "request_payload"@);
            &&& secrets == Some(json::FieldView::Object(list)) ==> r.secrets == Some(list)
            &&& secrets is None || secrets->0 is Null ==> r.secrets is Some && r.secrets->0.len()
                == 0
            &&& payload is Some ==> r.payload == payload->0.json
            &&& payload is None ==> r.payload == "{}"@
            &&& r.creds == aws_creds_result(members)
        }),
        request_of_parsed(json::ParsedView::Object(members)) == request_of(members),
        request_of_parsed(json::ParsedView::Refused) == request_of(seq![]),
        request_of_parsed(json::ParsedView::Other) == request_of(seq![]),
{
}

} // verus!
