//! The arguments of `teeify.fetch`. Reading a property of a script's object can
//! run the script's own code, so the properties are asked for one by one, in
//! order, and only where they matter.

use vstd::prelude::*;

use crate::http;
use crate::script;
use crate::script::Fault;
use crate::text;

verus! {

/// A value of the script, as plain values.
pub ghost enum SlotView {
    Undefined,
    Null,
    Text(Seq<char>),
}

/// A value of the script: undefined, null, or anything else as text.
pub enum Slot {
    Undefined,
    Null,
    Text(String),
}

impl View for Slot {
    type V = SlotView;

    open spec fn view(&self) -> SlotView {
        match self {
            Slot::Undefined => SlotView::Undefined,
            Slot::Null => SlotView::Null,
            Slot::Text(t) => SlotView::Text(t@),
        }
    }
}

/// The key of a property, as plain values.
pub ghost enum KeyView {
    Name(Seq<char>),
    Other,
}

/// The key of a property: a name, or an index or symbol.
pub enum Key {
    Name(String),
    Other,
}

impl View for Key {
    type V = KeyView;

    open spec fn view(&self) -> KeyView {
        match self {
            Key::Name(n) => KeyView::Name(n@),
            Key::Other => KeyView::Other,
        }
    }
}

/// The plain values behind a list of keys.
pub open spec fn keys_view(list: Seq<Key>) -> Seq<KeyView> {
    list.map_values(|k: Key| k@)
}

/// What `fetch` is to do, as plain values.
pub ghost struct FetchView {
    pub url: Seq<char>,
    pub method: Seq<char>,
    pub body: Option<Seq<char>>,
    pub headers: Seq<(Seq<char>, Seq<char>)>,
}

/// What `fetch` is to do.
pub struct FetchOptions {
    pub url: String,
    pub method: String,
    pub body: Option<String>,
    pub headers: Vec<(String, String)>,
}

impl View for FetchOptions {
    type V = FetchView;

    open spec fn view(&self) -> FetchView {
        FetchView {
            url: self.url@,
            method: self.method@,
            body: text::optional_text(self.body),
            headers: text::pairs(self.headers@),
        }
    }
}

/// What is asked of the script, as plain values.
pub ghost enum AskView {
    Url,
    Options,
    Method,
    Body,
    Headers,
    HeaderValue(int),
}

/// What is asked of the script: the first argument; whether the second one is an
/// object; its `method`; its `body`; the keys of its `headers`; the value of one of
/// those, by its place.
pub enum Ask {
    Url,
    Options,
    Method,
    Body,
    Headers,
    HeaderValue(usize),
}

impl View for Ask {
    type V = AskView;

    open spec fn view(&self) -> AskView {
        match self {
            Ask::Url => AskView::Url,
            Ask::Options => AskView::Options,
            Ask::Method => AskView::Method,
            Ask::Body => AskView::Body,
            Ask::Headers => AskView::Headers,
            Ask::HeaderValue(i) => AskView::HeaderValue(*i as int),
        }
    }
}

/// What the script answers, as plain values.
pub ghost enum AnswerView {
    Value(SlotView),
    IsObject(bool),
    Keys(Option<Seq<KeyView>>),
}

/// What the script answers: a value; whether there is an object; the keys of an
/// object, where there is one.
pub enum Answer {
    Value(Slot),
    IsObject(bool),
    Keys(Option<Vec<Key>>),
}

/// The plain values behind optional keys.
pub open spec fn optional_keys(k: Option<Vec<Key>>) -> Option<Seq<KeyView>> {
    match k {
        Some(list) => Some(keys_view(list@)),
        None => None,
    }
}

impl View for Answer {
    type V = AnswerView;

    open spec fn view(&self) -> AnswerView {
        match self {
            Answer::Value(v) => AnswerView::Value(v@),
            Answer::IsObject(b) => AnswerView::IsObject(*b),
            Answer::Keys(k) => AnswerView::Keys(optional_keys(*k)),
        }
    }
}

/// Arguments that are being read, as plain values: what is asked, what `fetch` is
/// to do so far, and the keys of the headers.
pub ghost struct ReaderView {
    pub ask: AskView,
    pub fetch: FetchView,
    pub keys: Seq<KeyView>,
}

/// Arguments that are being read.
pub struct OptionsReader {
    ask: Ask,
    fetch: FetchOptions,
    keys: Vec<Key>,
}

impl View for OptionsReader {
    type V = ReaderView;

    closed spec fn view(&self) -> ReaderView {
        ReaderView { ask: self.ask@, fetch: self.fetch@, keys: keys_view(self.keys@) }
    }
}

/// How far the reading has come, as plain values.
pub ghost enum ProgressView {
    Asking(ReaderView),
    Done(Result<FetchView, script::FaultView>),
}

/// How far the reading has come: there is something to ask, or `fetch` can begin,
/// or it cannot.
pub enum Progress {
    Asking(OptionsReader),
    Done(Result<FetchOptions, Fault>),
}

/// The plain values behind what reading the arguments gave.
pub open spec fn to_fetch_result(r: Result<FetchOptions, Fault>) -> Result<
    FetchView,
    script::FaultView,
> {
    match r {
        Ok(f) => Ok(f@),
        Err(e) => Err(e@),
    }
}

impl View for Progress {
    type V = ProgressView;

    open spec fn view(&self) -> ProgressView {
        match self {
            Progress::Asking(r) => ProgressView::Asking(r@),
            Progress::Done(r) => ProgressView::Done(to_fetch_result(*r)),
        }
    }
}

/// Whether a header with this key is sent: it has a name, and is none of those
/// that the request sets itself.
pub open spec fn is_wanted(key: KeyView) -> bool {
    match key {
        KeyView::Name(name) => {
            &&& name.len() > 0
            &&& !http::alike(name, "host"@)
            &&& !http::alike(name, "content-length"@)
            &&& !http::alike(name, "connection"@)
        },
        KeyView::Other => false,
    }
}

/// The first place, from `i` on, of a key that is wanted; the number of keys where
/// there is none.
pub open spec fn next_wanted(keys: Seq<KeyView>, i: int) -> int
    decreases keys.len() - i,
{
    if i >= keys.len() {
        keys.len() as int
    } else if is_wanted(keys[i]) {
        i
    } else {
        next_wanted(keys, i + 1)
    }
}

/// The text of a value that is there.
pub open spec fn slot_text(v: SlotView) -> Option<Seq<char>> {
    match v {
        SlotView::Undefined => None,
        SlotView::Null => Some("null"@),
        SlotView::Text(t) => Some(t),
    }
}

/// The method that `fetch` uses.
pub open spec fn method_of(v: SlotView) -> Seq<char> {
    match slot_text(v) {
        Some(t) => if t.len() > 0 {
            t
        } else {
            "GET"@
        },
        None => "GET"@,
    }
}

/// The body that `fetch` sends.
pub open spec fn body_of(v: SlotView) -> Option<Seq<char>> {
    match v {
        SlotView::Text(t) => Some(t),
        _ => None,
    }
}

/// The URL that `fetch` is to get.
pub open spec fn url_of(v: SlotView) -> Result<Seq<char>, script::FaultView> {
    match v {
        SlotView::Text(t) => if t.len() > 0 {
            Ok(t)
        } else {
            Err(script::FaultView::TypeError("teeify.fetch: url is empty"@))
        },
        _ => Err(
            script::FaultView::TypeError("teeify.fetch: first argument (url) is required"@),
        ),
    }
}

/// The headers with these keys and values that are sent.
pub open spec fn headers_of(list: Seq<(KeyView, SlotView)>) -> Seq<(Seq<char>, Seq<char>)>
    decreases list.len(),
{
    if list.len() == 0 {
        seq![]
    } else {
        let (key, value) = list.last();
        let before = headers_of(list.drop_last());
        match (key, slot_text(value)) {
            (KeyView::Name(name), Some(t)) => if is_wanted(key) {
                before.push((name, t))
            } else {
                before
            },
            _ => before,
        }
    }
}

/// The values of an object of options, as plain values.
pub ghost struct RawView {
    pub method: SlotView,
    pub body: SlotView,
    pub headers: Option<Seq<(KeyView, SlotView)>>,
}

/// What arguments with these values ask `fetch` to do.
pub open spec fn parsed(url: SlotView, options: Option<RawView>) -> Result<
    FetchView,
    script::FaultView,
> {
    match url_of(url) {
        Err(e) => Err(e),
        Ok(u) => match options {
            None => Ok(FetchView { url: u, method: "GET"@, body: None, headers: seq![] }),
            Some(o) => Ok(
                FetchView {
                    url: u,
                    method: method_of(o.method),
                    body: body_of(o.body),
                    headers: match o.headers {
                        Some(list) => headers_of(list),
                        None => seq![],
                    },
                },
            ),
        },
    }
}

/// Reading begins with the first argument.
pub open spec fn started() -> ReaderView {
    ReaderView {
        ask: AskView::Url,
        fetch: FetchView { url: seq![], method: "GET"@, body: None, headers: seq![] },
        keys: seq![],
    }
}

/// Reading goes on with the first wanted header from `i` on.
pub open spec fn at_header(r: ReaderView, i: int) -> ProgressView {
    let j = next_wanted(r.keys, i);
    if j < r.keys.len() {
        ProgressView::Asking(ReaderView { ask: AskView::HeaderValue(j), ..r })
    } else {
        ProgressView::Done(Ok(r.fetch))
    }
}

/// What an answer makes of the reading. An answer to something else changes
/// nothing.
pub open spec fn answered(r: ReaderView, a: AnswerView) -> ProgressView {
    match (r.ask, a) {
        (AskView::Url, AnswerView::Value(v)) => match url_of(v) {
            Err(e) => ProgressView::Done(Err(e)),
            Ok(url) => ProgressView::Asking(
                ReaderView { ask: AskView::Options, fetch: FetchView { url, ..r.fetch }, ..r },
            ),
        },
        (AskView::Options, AnswerView::IsObject(there)) => if there {
            ProgressView::Asking(ReaderView { ask: AskView::Method, ..r })
        } else {
            ProgressView::Done(Ok(r.fetch))
        },
        (AskView::Method, AnswerView::Value(v)) => ProgressView::Asking(
            ReaderView {
                ask: AskView::Body,
                fetch: FetchView { method: method_of(v), ..r.fetch },
                ..r
            },
        ),
        (AskView::Body, AnswerView::Value(v)) => ProgressView::Asking(
            ReaderView {
                ask: AskView::Headers,
                fetch: FetchView { body: body_of(v), ..r.fetch },
                ..r
            },
        ),
        (AskView::Headers, AnswerView::Keys(None)) => ProgressView::Done(Ok(r.fetch)),
        (AskView::Headers, AnswerView::Keys(Some(keys))) => at_header(
            ReaderView { keys, ..r },
            0,
        ),
        (AskView::HeaderValue(i), AnswerView::Value(v)) => match (r.keys[i], slot_text(v)) {
            (KeyView::Name(name), Some(t)) => at_header(
                ReaderView {
                    fetch: FetchView { headers: r.fetch.headers.push((name, t)), ..r.fetch },
                    ..r
                },
                i + 1,
            ),
            _ => at_header(r, i + 1),
        },
        _ => ProgressView::Asking(r),
    }
}

/// Whether a header with this key is sent.
pub fn wants_header(key: &Key) -> (r: bool)
    ensures
        r == is_wanted(key@),
{
    match key {
        Key::Name(name) => {
            !name.as_str().is_empty() && !text::same_ignoring_ascii_case(name.as_str(), "host")
                && !text::same_ignoring_ascii_case(name.as_str(), "content-length")
                && !text::same_ignoring_ascii_case(name.as_str(), "connection")
        },
        Key::Other => false,
    }
}

fn find_wanted(keys: &Vec<Key>, i: usize) -> (j: usize)
    requires
        i <= keys@.len(),
    ensures
        j == next_wanted(keys_view(keys@), i as int),
        j <= keys@.len(),
{
    let mut j: usize = i;
    while j < keys.len() && !wants_header(&keys[j])
        invariant
            j <= keys@.len(),
            next_wanted(keys_view(keys@), j as int) == next_wanted(keys_view(keys@), i as int),
        decreases keys.len() - j,
    {
        j += 1;
    }
    j
}

fn text_of_slot(v: Slot) -> (r: Option<String>)
    ensures
        text::optional_text(r) == slot_text(v@),
{
    match v {
        Slot::Undefined => None,
        Slot::Null => Some("null".to_string()),
        Slot::Text(t) => Some(t),
    }
}

impl OptionsReader {
    #[verifier::type_invariant]
    spec fn fits(self) -> bool {
        self.ask matches Ask::HeaderValue(i) ==> i < self.keys@.len()
    }

    /// Reading begins with the first argument.
    pub fn start() -> (r: OptionsReader)
        ensures
            r@ == started(),
    {
        let r = OptionsReader {
            ask: Ask::Url,
            fetch: FetchOptions {
                url: String::new(),
                method: "GET".to_string(),
                body: None,
                headers: Vec::new(),
            },
            keys: Vec::new(),
        };
        proof {
            assert(r.fetch.url@ =~= seq![]);
            assert(text::pairs(r.fetch.headers@) =~= seq![]);
            assert(keys_view(r.keys@) =~= seq![]);
        }
        r
    }

    /// What is to be asked of the script.
    pub fn ask(&self) -> (a: &Ask)
        ensures
            a@ == self@.ask,
    {
        &self.ask
    }

    fn go_to_header(self, i: usize) -> (p: Progress)
        requires
            i <= self@.keys.len(),
        ensures
            p@ == at_header(self@, i as int),
    {
        assert(self@.keys.len() == self.keys@.len());
        let j: usize = find_wanted(&self.keys, i);
        let OptionsReader { ask: _, fetch, keys } = self;
        if j < keys.len() {
            Progress::Asking(OptionsReader { ask: Ask::HeaderValue(j), fetch, keys })
        } else {
            Progress::Done(Ok(fetch))
        }
    }

    /// Takes in an answer.
    pub fn answer(self, a: Answer) -> (p: Progress)
        ensures
            p@ == answered(self@, a@),
    {
        proof {
            use_type_invariant(&self);
        }
        let OptionsReader { ask, fetch, keys } = self;
        match (ask, a) {
            (Ask::Url, Answer::Value(Slot::Text(url))) => {
                if url.as_str().is_empty() {
                    Progress::Done(
                        Err(Fault::TypeError("teeify.fetch: url is empty".to_string())),
                    )
                } else {
                    Progress::Asking(
                        OptionsReader {
                            ask: Ask::Options,
                            fetch: FetchOptions { url, ..fetch },
                            keys,
                        },
                    )
                }
            },
            (Ask::Url, Answer::Value(_)) => Progress::Done(
                Err(
                    Fault::TypeError("teeify.fetch: first argument (url) is required".to_string()),
                ),
            ),
            (Ask::Options, Answer::IsObject(there)) => {
                if there {
                    Progress::Asking(OptionsReader { ask: Ask::Method, fetch, keys })
                } else {
                    Progress::Done(Ok(fetch))
                }
            },
            (Ask::Method, Answer::Value(v)) => {
                let method = match text_of_slot(v) {
                    Some(t) => if t.as_str().is_empty() {
                        "GET".to_string()
                    } else {
                        t
                    },
                    None => "GET".to_string(),
                };
                Progress::Asking(
                    OptionsReader {
                        ask: Ask::Body,
                        fetch: FetchOptions { method, ..fetch },
                        keys,
                    },
                )
            },
            (Ask::Body, Answer::Value(v)) => {
                let body = match v {
                    Slot::Text(t) => Some(t),
                    _ => None,
                };
                Progress::Asking(
                    OptionsReader {
                        ask: Ask::Headers,
                        fetch: FetchOptions { body, ..fetch },
                        keys,
                    },
                )
            },
            (Ask::Headers, Answer::Keys(None)) => Progress::Done(Ok(fetch)),
            (Ask::Headers, Answer::Keys(Some(list))) => OptionsReader {
                ask: Ask::Headers,
                fetch,
                keys: list,
            }.go_to_header(0),
            (Ask::HeaderValue(i), Answer::Value(v)) => {
                assert(i < keys.len());
                let ghost before = fetch.headers@;
                let name = match &keys[i] {
                    Key::Name(n) => Some(n.clone()),
                    Key::Other => None,
                };
                let mut headers = fetch.headers;
                match (name, text_of_slot(v)) {
                    (Some(n), Some(t)) => {
                        headers.push((n, t));
                        assert(text::pairs(headers@) =~= text::pairs(before).push((n@, t@)));
                    },
                    _ => {},
                }
                OptionsReader {
                    ask: Ask::HeaderValue(i),
                    fetch: FetchOptions { headers, ..fetch },
                    keys,
                }.go_to_header(i + 1)
            },
            (ask, _) => Progress::Asking(OptionsReader { ask, fetch, keys }),
        }
    }
}

/// The keys of a list of keys and values.
pub open spec fn keys_of(list: Seq<(KeyView, SlotView)>) -> Seq<KeyView> {
    list.map_values(|p: (KeyView, SlotView)| p.0)
}

/// What a script whose arguments have these values answers.
pub open spec fn reply_to(ask: AskView, url: SlotView, options: Option<RawView>) -> AnswerView {
    match ask {
        AskView::Url => AnswerView::Value(url),
        AskView::Options => AnswerView::IsObject(options is Some),
        AskView::Method => AnswerView::Value(options->0.method),
        AskView::Body => AnswerView::Value(options->0.body),
        AskView::Headers => AnswerView::Keys(
            match options->0.headers {
                Some(list) => Some(keys_of(list)),
                None => None,
            },
        ),
        AskView::HeaderValue(i) => AnswerView::Value(options->0.headers->0[i].1),
    }
}

/// How far the reading comes with a number of answers.
pub open spec fn after_answers(
    p: ProgressView,
    url: SlotView,
    options: Option<RawView>,
    n: nat,
) -> ProgressView
    decreases n,
{
    match p {
        ProgressView::Asking(r) => if n == 0 {
            p
        } else {
            after_answers(
                answered(r, reply_to(r.ask, url, options)),
                url,
                options,
                (n - 1) as nat,
            )
        },
        ProgressView::Done(_) => p,
    }
}

/// The number of answers that are enough.
pub open spec fn enough_answers(options: Option<RawView>) -> nat {
    match options {
        Some(o) => match o.headers {
            Some(list) => 5 + list.len(),
            None => 5,
        },
        None => 5,
    }
}

/// Headers that are not wanted add nothing.
proof fn lemma_skip(list: Seq<(KeyView, SlotView)>, i: int)
    requires
        0 <= i <= list.len(),
    ensures
        i <= next_wanted(keys_of(list), i) <= list.len(),
        headers_of(list.take(next_wanted(keys_of(list), i))) == headers_of(list.take(i)),
        next_wanted(keys_of(list), i) < list.len() ==> is_wanted(
            list[next_wanted(keys_of(list), i)].0,
        ),
    decreases list.len() - i,
{
    if i < list.len() && !is_wanted(list[i].0) {
        lemma_skip(list, i + 1);
        assert(list.take(i + 1).drop_last() =~= list.take(i));
        assert(list.take(i + 1).last() == list[i]);
    }
}

proof fn lemma_headers(
    r: ReaderView,
    i: int,
    url: SlotView,
    options: Option<RawView>,
    list: Seq<(KeyView, SlotView)>,
    n: nat,
)
    requires
        options is Some,
        options->0.headers == Some(list),
        0 <= i <= list.len(),
        r.keys == keys_of(list),
        r.fetch.headers == headers_of(list.take(i)),
        n >= list.len() - i,
    ensures
        after_answers(at_header(r, i), url, options, n) == ProgressView::Done(
            Ok(FetchView { headers: headers_of(list), ..r.fetch }),
        ),
    decreases list.len() - i,
{
    lemma_skip(list, i);
    let j = next_wanted(keys_of(list), i);
    if j < list.len() {
        let asking = ReaderView { ask: AskView::HeaderValue(j), ..r };
        assert(at_header(r, i) == ProgressView::Asking(asking));
        assert(list.take(j + 1).drop_last() =~= list.take(j));
        assert(list.take(j + 1).last() == list[j]);
        let (key, value) = list[j];
        assert(r.keys[j] == key);
        let next = match (key, slot_text(value)) {
            (KeyView::Name(name), Some(t)) => ReaderView {
                fetch: FetchView { headers: r.fetch.headers.push((name, t)), ..r.fetch },
                ..asking
            },
            _ => asking,
        };
        assert(next.fetch.headers == headers_of(list.take(j + 1)));
        lemma_headers(next, j + 1, url, options, list, (n - 1) as nat);
        assert(answered(asking, reply_to(asking.ask, url, options)) == at_header(next, j + 1));
    } else {
        assert(list.take(j) =~= list);
    }
}

/// Asking one by one comes to what the values of the arguments ask for.
pub proof fn law_reading_is_parsing(url: SlotView, options: Option<RawView>)
    ensures
        after_answers(
            ProgressView::Asking(started()),
            url,
            options,
            enough_answers(options),
        ) == ProgressView::Done(parsed(url, options)),
{
    let n = enough_answers(options);
    reveal_with_fuel(after_answers, 6);
    let r0 = started();
    if let Ok(u) = url_of(url) {
        if let Some(o) = options {
            let r = ReaderView {
                ask: AskView::Headers,
                fetch: FetchView {
                    url: u,
                    method: method_of(o.method),
                    body: body_of(o.body),
                    headers: seq![],
                },
                keys: seq![],
            };
            assert(after_answers(ProgressView::Asking(r0), url, options, n) == after_answers(
                ProgressView::Asking(r),
                url,
                options,
                (n - 4) as nat,
            ));
            if let Some(list) = o.headers {
                let with_keys = ReaderView { keys: keys_of(list), ..r };
                assert(headers_of(list.take(0)) =~= seq![]);
                lemma_headers(with_keys, 0, url, options, list, list.len());
            }
        }
    }
}

/// No header that the request sets itself is taken from the arguments.
pub proof fn law_reserved_headers_are_dropped(url: SlotView, options: Option<RawView>)
    ensures
        parsed(url, options) matches Ok(f) ==> forall|i: int|
            0 <= i < f.headers.len() ==> is_wanted(KeyView::Name((#[trigger] f.headers[i]).0)),
{
    if let Some(o) = options {
        if let Some(list) = o.headers {
            lemma_headers_wanted(list);
        }
    }
}

proof fn lemma_headers_wanted(list: Seq<(KeyView, SlotView)>)
    ensures
        forall|i: int|
            0 <= i < headers_of(list).len() ==> is_wanted(
                KeyView::Name((#[trigger] headers_of(list)[i]).0),
            ),
    decreases list.len(),
{
    if list.len() > 0 {
        lemma_headers_wanted(list.drop_last());
        let before = headers_of(list.drop_last());
        assert forall|i: int| 0 <= i < headers_of(list).len() implies is_wanted(
            KeyView::Name((#[trigger] headers_of(list)[i]).0),
        ) by {
            if i < before.len() {
                assert(headers_of(list)[i] == before[i]);
            }
        }
    }
}

/// What the arguments say is taken as it is: the URL, which must be a text that is not
/// empty; the method, which is `GET` where there is none; the body, where it is neither
/// undefined nor null; and the headers.
pub proof fn law_arguments_are_taken_as_they_are(
    url: Seq<char>,
    method: Seq<char>,
    body: Seq<char>,
    o: RawView,
)
    requires
        url.len() > 0,
        method.len() > 0,
    ensures
        parsed(SlotView::Text(url), None) == Ok::<FetchView, script::FaultView>(
            FetchView { url, method: "GET"@, body: None, headers: seq![] },
        ),
        parsed(SlotView::Text(url), Some(o)) is Ok,
        ({
            let f = parsed(SlotView::Text(url), Some(o))->Ok_0;
            &&& f.url == url
            &&& o.method == SlotView::Text(method) ==> f.method == method
            &&& o.method == SlotView::Text(seq![]) ==> f.method == "GET"@
            &&& o.method is Undefined ==> f.method == "GET"@
            &&& o.method is Null ==> f.method == "null"@
            &&& o.body == SlotView::Text(body) ==> f.body == Some(body)
            &&& o.body is Undefined || o.body is Null ==> f.body is None
            &&& o.headers is None ==> f.headers.len() == 0
            &&& o.headers is Some ==> f.headers == headers_of(o.headers->0)
        }),
        parsed(SlotView::Text(seq![]), Some(o)) == Err::<FetchView, script::FaultView>(
            script::FaultView::TypeError("teeify.fetch: url is empty"@),
        ),
        parsed(SlotView::Undefined, Some(o)) == Err::<FetchView, script::FaultView>(
            script::FaultView::TypeError("teeify.fetch: first argument (url) is required"@),
        ),
        parsed(SlotView::Null, Some(o)) == Err::<FetchView, script::FaultView>(
            script::FaultView::TypeError("teeify.fetch: first argument (url) is required"@),
        ),
{
    reveal_strlit("null");
}

/// Headers are taken in their order, each with its name and the text of its value as
/// they are; those that the request sets itself, in any case of their letters, those
/// without a name and those without a value are left out.
pub proof fn law_headers_are_taken_in_order(
    list: Seq<(KeyView, SlotView)>,
    name: Seq<char>,
    value: SlotView,
)
    ensures
        headers_of(seq![]).len() == 0,
        ({
            let reserved = name.len() == 0 || text::ascii_lowered(name) == "host"@
                || text::ascii_lowered(name) == "content-length"@ || text::ascii_lowered(name)
                == "connection"@;
            let all = headers_of(list.push((KeyView::Name(name), value)));
            &&& reserved || value is Undefined ==> all == headers_of(list)
            &&& !reserved && value is Null ==> all == headers_of(list).push((name, "null"@))
            &&& !reserved && value is Text ==> all == headers_of(list).push((name, value->Text_0))
        }),
        headers_of(list.push((KeyView::Other, value))) == headers_of(list),
{
    reveal_strlit("host");
    reveal_strlit("content-length");
    reveal_strlit("connection");
    assert(text::ascii_lowered("host"@) =~= "host"@);
    assert(text::ascii_lowered("content-length"@) =~= "content-length"@);
    assert(text::ascii_lowered("connection"@) =~= "connection"@);
    let named = list.push((KeyView::Name(name), value));
    let other = list.push((KeyView::Other, value));
    assert(named.drop_last() =~= list);
    assert(other.drop_last() =~= list);
}

/// The script is asked for its arguments in order: the URL, whether there are options,
/// the method, the body, the keys of the headers, and then, by their places and never
/// backwards, the values of those headers alone that will be sent.
pub proof fn law_questions_in_order(r: ReaderView, a: AnswerView)
    requires
        r.ask matches AskView::HeaderValue(i) ==> 0 <= i < r.keys.len(),
    ensures
        answered(r, a) matches ProgressView::Asking(t) ==> t.ask == r.ask || match (r.ask, t.ask) {
            (AskView::Url, AskView::Options) => true,
            (AskView::Options, AskView::Method) => true,
            (AskView::Method, AskView::Body) => true,
            (AskView::Body, AskView::Headers) => true,
            (AskView::Headers, AskView::HeaderValue(j)) => 0 <= j < t.keys.len() && is_wanted(
                t.keys[j],
            ) && forall|k: int| 0 <= k < j ==> !is_wanted(#[trigger] t.keys[k]),
            (AskView::HeaderValue(i), AskView::HeaderValue(j)) => i < j < t.keys.len()
                && is_wanted(t.keys[j]) && forall|k: int|
                i < k < j ==> !is_wanted(#[trigger] t.keys[k]),
            _ => false,
        },
{
    if let (AskView::Headers, AnswerView::Keys(Some(keys))) = (r.ask, a) {
        lemma_next_wanted(keys, 0);
    }
    if let AskView::HeaderValue(i) = r.ask {
        lemma_next_wanted(r.keys, i + 1);
    }
}

proof fn lemma_next_wanted(keys: Seq<KeyView>, i: int)
    requires
        0 <= i <= keys.len(),
    ensures
        i <= next_wanted(keys, i) <= keys.len(),
        next_wanted(keys, i) < keys.len() ==> is_wanted(keys[next_wanted(keys, i)]),
        forall|k: int| i <= k < next_wanted(keys, i) ==> !is_wanted(#[trigger] keys[k]),
    decreases keys.len() - i,
{
    if i < keys.len() && !is_wanted(keys[i]) {
        lemma_next_wanted(keys, i + 1);
    }
}

} // verus!
