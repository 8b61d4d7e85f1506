use crate::packet::same_bytes;
use serde_json::Value;
use vstd::prelude::*;
use vstd::string::StringSliceAdditionalSpecFns;

verus! {

/// One argument of a translated chat component: its text (a bare string, or the `text`
/// member of an object) and its `insertion` member, as UTF-8 bytes.
pub struct ChatArg {
    pub text: Option<Vec<u8>>,
    pub insertion: Option<Vec<u8>>,
}

/// The parts of a chat component that the client shows: style flags, a named color, and
/// either a translation key with its arguments or a literal text. Text is held as UTF-8
/// bytes.
pub struct ChatComponent {
    pub bold: Option<bool>,
    pub italic: Option<bool>,
    pub underlined: Option<bool>,
    pub strikethrough: Option<bool>,
    pub color: Option<Vec<u8>>,
    pub translate: Option<Vec<u8>>,
    pub with: Option<Vec<ChatArg>>,
    pub text: Option<Vec<u8>>,
}

/// `code` when the flag is set, nothing otherwise.
pub open spec fn flag_code(flag: Option<bool>, code: Seq<u8>) -> Seq<u8> {
    if flag == Some(true) {
        code
    } else {
        Seq::empty()
    }
}

/// The terminal escape for a named color; nothing for an unknown name.
pub open spec fn color_code(name: Seq<u8>) -> Seq<u8> {
    if name == "black".spec_bytes() {
        "\x1B[30m".spec_bytes()
    } else if name == "dark_blue".spec_bytes() {
        "\x1B[34m".spec_bytes()
    } else if name == "dark_green".spec_bytes() {
        "\x1B[32m".spec_bytes()
    } else if name == "dark_aqua".spec_bytes() {
        "\x1B[36m".spec_bytes()
    } else if name == "dark_red".spec_bytes() {
        "\x1B[31m".spec_bytes()
    } else if name == "dark_purple".spec_bytes() {
        "\x1B[35m".spec_bytes()
    } else if name == "gold".spec_bytes() {
        "\x1B[33m".spec_bytes()
    } else if name == "gray".spec_bytes() {
        "\x1B[37m".spec_bytes()
    } else if name == "dark_gray".spec_bytes() {
        "\x1B[90m".spec_bytes()
    } else if name == "blue".spec_bytes() {
        "\x1B[94m".spec_bytes()
    } else if name == "green".spec_bytes() {
        "\x1B[92m".spec_bytes()
    } else if name == "aqua".spec_bytes() {
        "\x1B[96m".spec_bytes()
    } else if name == "red".spec_bytes() {
        "\x1B[91m".spec_bytes()
    } else if name == "light_purple".spec_bytes() {
        "\x1B[95m".spec_bytes()
    } else if name == "yellow".spec_bytes() {
        "\x1B[93m".spec_bytes()
    } else if name == "white".spec_bytes() {
        "\x1B[97m".spec_bytes()
    } else {
        Seq::empty()
    }
}

/// The bytes of an optional text, seen as a sequence.
pub open spec fn opt_view(t: Option<Vec<u8>>) -> Option<Seq<u8>> {
    match t {
        Some(v) => Some(v@),
        None => None,
    }
}

/// The bytes of an optional text, or nothing.
pub open spec fn opt_text(t: Option<Seq<u8>>) -> Seq<u8> {
    match t {
        Some(v) => v,
        None => Seq::empty(),
    }
}

/// An argument seen as its text and its insertion.
pub open spec fn arg_view(a: ChatArg) -> (Option<Seq<u8>>, Option<Seq<u8>>) {
    (opt_view(a.text), opt_view(a.insertion))
}

/// The arguments seen as texts and insertions.
pub open spec fn args_seq(w: Seq<ChatArg>) -> Seq<(Option<Seq<u8>>, Option<Seq<u8>>)> {
    w.map_values(|a: ChatArg| arg_view(a))
}

/// The message that a translation key and its arguments (text, insertion) render to:
/// `<sender> text` for chat, `name left the game` and `name joined the game` for
/// departures and arrivals, nothing for any other key or a wrong number of arguments.
pub open spec fn chat_body(translate: Seq<u8>, with: Seq<(Option<Seq<u8>>, Option<Seq<u8>>)>) -> Seq<
    u8,
> {
    if translate == "chat.type.text".spec_bytes() || translate
        == "commands.message.display.incoming".spec_bytes() {
        if with.len() == 2 {
            (match with[0].1 {
                Some(i) => "<".spec_bytes() + i + "> ".spec_bytes(),
                None => Seq::empty(),
            }) + opt_text(with[1].0)
        } else {
            Seq::empty()
        }
    } else if translate == "multiplayer.player.left".spec_bytes() {
        if with.len() == 1 && with[0].0 is Some {
            opt_text(with[0].0) + " left the game".spec_bytes()
        } else {
            Seq::empty()
        }
    } else if translate == "multiplayer.player.joined".spec_bytes() {
        if with.len() == 1 && with[0].0 is Some {
            opt_text(with[0].0) + " joined the game".spec_bytes()
        } else {
            Seq::empty()
        }
    } else {
        Seq::empty()
    }
}

/// What a chat component shows, from its parts: the style escapes in the order bold,
/// italic, underlined, strikethrough, then the color, then the message. With a
/// translation key the message is its template; without one, the literal text.
pub open spec fn render_parts(
    bold: Option<bool>,
    italic: Option<bool>,
    underlined: Option<bool>,
    strikethrough: Option<bool>,
    color: Option<Seq<u8>>,
    translate: Option<Seq<u8>>,
    with: Option<Seq<(Option<Seq<u8>>, Option<Seq<u8>>)>>,
    text: Option<Seq<u8>>,
) -> Seq<u8> {
    flag_code(bold, "\x1B[1m".spec_bytes()) + flag_code(italic, "\x1B[3m".spec_bytes()) + flag_code(
        underlined,
        "\x1B[4m".spec_bytes(),
    ) + flag_code(strikethrough, "\x1B[9m".spec_bytes()) + (match color {
        Some(n) => color_code(n),
        None => Seq::empty(),
    }) + match translate {
        Some(t) => match with {
            Some(w) => chat_body(t, w),
            None => Seq::empty(),
        },
        None => opt_text(text),
    }
}

/// What a chat component shows.
pub open spec fn chat_render(c: ChatComponent) -> Seq<u8> {
    render_parts(
        c.bold,
        c.italic,
        c.underlined,
        c.strikethrough,
        opt_view(c.color),
        opt_view(c.translate),
        match c.with {
            Some(w) => Some(args_seq(w@)),
            None => None,
        },
        opt_view(c.text),
    )
}

/// What a JSON value holds. Strings and object keys are held as their UTF-8 bytes.
pub enum JsonModel {
    Null,
    Bool(bool),
    Number,
    Str(Seq<u8>),
    Array(Seq<JsonModel>),
    Object(Map<Seq<u8>, JsonModel>),
}

/// The JSON value that a text spells, or `None` where the text is not JSON.
pub uninterp spec fn json_of(s: Seq<char>) -> Option<JsonModel>;

/// The member `key` of an object.
pub open spec fn member_of(j: JsonModel, key: Seq<u8>) -> Option<JsonModel> {
    match j {
        JsonModel::Object(m) => if m.contains_key(key) {
            Some(m[key])
        } else {
            None
        },
        _ => None,
    }
}

/// The element at `i` of an array.
pub open spec fn element_of(j: JsonModel, i: int) -> Option<JsonModel> {
    match j {
        JsonModel::Array(items) => if 0 <= i < items.len() {
            Some(items[i])
        } else {
            None
        },
        _ => None,
    }
}

/// The member `key` when it is a boolean.
pub open spec fn bool_member(j: JsonModel, key: Seq<u8>) -> Option<bool> {
    match member_of(j, key) {
        Some(JsonModel::Bool(b)) => Some(b),
        _ => None,
    }
}

/// The member `key` when it is a string.
pub open spec fn text_member(j: JsonModel, key: Seq<u8>) -> Option<Seq<u8>> {
    match member_of(j, key) {
        Some(JsonModel::Str(b)) => Some(b),
        _ => None,
    }
}

/// The text of a translation argument: a bare string, or the `text` member of an object.
pub open spec fn arg_text(x: JsonModel) -> Option<Seq<u8>> {
    match x {
        JsonModel::Str(b) => Some(b),
        _ => text_member(x, "text".spec_bytes()),
    }
}

/// A translation argument seen as its text and its insertion.
pub open spec fn arg_of(x: JsonModel) -> (Option<Seq<u8>>, Option<Seq<u8>>) {
    (arg_text(x), text_member(x, "insertion".spec_bytes()))
}

/// The `with` member when it is an array, as texts and insertions.
pub open spec fn args_member(j: JsonModel) -> Option<Seq<(Option<Seq<u8>>, Option<Seq<u8>>)>> {
    match member_of(j, "with".spec_bytes()) {
        Some(JsonModel::Array(items)) => Some(items.map_values(|x: JsonModel| arg_of(x))),
        _ => None,
    }
}

/// What a chat component given as JSON shows.
pub open spec fn json_render(j: JsonModel) -> Seq<u8> {
    render_parts(
        bool_member(j, "bold".spec_bytes()),
        bool_member(j, "italic".spec_bytes()),
        bool_member(j, "underlined".spec_bytes()),
        bool_member(j, "strikethrough".spec_bytes()),
        text_member(j, "color".spec_bytes()),
        text_member(j, "translate".spec_bytes()),
        args_member(j),
        text_member(j, "text".spec_bytes()),
    )
}

/// Whether `c` holds the parts that the JSON value `j` gives.
pub open spec fn component_of_json(c: ChatComponent, j: JsonModel) -> bool {
    &&& c.bold == bool_member(j, "bold".spec_bytes())
    &&& c.italic == bool_member(j, "italic".spec_bytes())
    &&& c.underlined == bool_member(j, "underlined".spec_bytes())
    &&& c.strikethrough == bool_member(j, "strikethrough".spec_bytes())
    &&& opt_view(c.color) == text_member(j, "color".spec_bytes())
    &&& opt_view(c.translate) == text_member(j, "translate".spec_bytes())
    &&& opt_view(c.text) == text_member(j, "text".spec_bytes())
    &&& (match c.with {
        Some(w) => Some(args_seq(w@)),
        None => None,
    }) == args_member(j)
}

/// Appends every byte of `b` to `out`.
fn push_all(out: &mut Vec<u8>, b: &[u8])
    ensures
        final(out)@ == old(out)@ + b@,
{
    let mut i: usize = 0;
    while i < b.len()
        invariant
            i <= b@.len(),
            out@ == old(out)@ + b@.take(i as int),
        decreases b@.len() - i,
    {
        out.push(b[i]);
        i = i + 1;
        assert(out@ =~= old(out)@ + b@.take(i as int));
    }
    assert(b@.take(i as int) =~= b@);
}

/// The terminal escape for a named color.
pub fn color_escape(name: &[u8]) -> (r: &'static str)
    ensures
        r.spec_bytes() == color_code(name@),
{
    if same_bytes(name, "black".as_bytes()) {
        "\x1B[30m"
    } else if same_bytes(name, "dark_blue".as_bytes()) {
        "\x1B[34m"
    } else if same_bytes(name, "dark_green".as_bytes()) {
        "\x1B[32m"
    } else if same_bytes(name, "dark_aqua".as_bytes()) {
        "\x1B[36m"
    } else if same_bytes(name, "dark_red".as_bytes()) {
        "\x1B[31m"
    } else if same_bytes(name, "dark_purple".as_bytes()) {
        "\x1B[35m"
    } else if same_bytes(name, "gold".as_bytes()) {
        "\x1B[33m"
    } else if same_bytes(name, "gray".as_bytes()) {
        "\x1B[37m"
    } else if same_bytes(name, "dark_gray".as_bytes()) {
        "\x1B[90m"
    } else if same_bytes(name, "blue".as_bytes()) {
        "\x1B[94m"
    } else if same_bytes(name, "green".as_bytes()) {
        "\x1B[92m"
    } else if same_bytes(name, "aqua".as_bytes()) {
        "\x1B[96m"
    } else if same_bytes(name, "red".as_bytes()) {
        "\x1B[91m"
    } else if same_bytes(name, "light_purple".as_bytes()) {
        "\x1B[95m"
    } else if same_bytes(name, "yellow".as_bytes()) {
        "\x1B[93m"
    } else if same_bytes(name, "white".as_bytes()) {
        "\x1B[97m"
    } else {
        proof {
            reveal_strlit("");
        }
        ""
    }
}

/// Renders the message of a translation key and its arguments.
pub fn render_body(translate: &[u8], with: &Vec<ChatArg>) -> (r: Vec<u8>)
    ensures
        r@ == chat_body(translate@, args_seq(with@)),
{
    let mut out: Vec<u8> = Vec::new();
    let ghost w = args_seq(with@);
    if same_bytes(translate, "chat.type.text".as_bytes()) || same_bytes(
        translate,
        "commands.message.display.incoming".as_bytes(),
    ) {
        if with.len() == 2 {
            match &with[0].insertion {
                Some(i) => {
                    push_all(&mut out, "<".as_bytes());
                    push_all(&mut out, i.as_slice());
                    push_all(&mut out, "> ".as_bytes());
                },
                None => {},
            }
            match &with[1].text {
                Some(t) => push_all(&mut out, t.as_slice()),
                None => {},
            }
            assert(out@ =~= chat_body(translate@, w));
        }
    } else if same_bytes(translate, "multiplayer.player.left".as_bytes()) {
        if with.len() == 1 {
            match &with[0].text {
                Some(t) => {
                    push_all(&mut out, t.as_slice());
                    push_all(&mut out, " left the game".as_bytes());
                },
                None => {},
            }
        }
    } else if same_bytes(translate, "multiplayer.player.joined".as_bytes()) {
        if with.len() == 1 {
            match &with[0].text {
                Some(t) => {
                    push_all(&mut out, t.as_slice());
                    push_all(&mut out, " joined the game".as_bytes());
                },
                None => {},
            }
        }
    }
    out
}

/// Renders a chat component: its style escapes, its color, then its message.
pub fn render_chat(c: &ChatComponent) -> (r: Vec<u8>)
    ensures
        r@ == chat_render(*c),
{
    let mut out: Vec<u8> = Vec::new();
    if c.bold == Some(true) {
        push_all(&mut out, "\x1B[1m".as_bytes());
    }
    let ghost a = out@;
    if c.italic == Some(true) {
        push_all(&mut out, "\x1B[3m".as_bytes());
    }
    let ghost b = out@;
    if c.underlined == Some(true) {
        push_all(&mut out, "\x1B[4m".as_bytes());
    }
    let ghost d = out@;
    if c.strikethrough == Some(true) {
        push_all(&mut out, "\x1B[9m".as_bytes());
    }
    let ghost e = out@;
    match &c.color {
        Some(n) => push_all(&mut out, color_escape(n.as_slice()).as_bytes()),
        None => {},
    }
    let ghost f = out@;
    match &c.translate {
        Some(t) => match &c.with {
            Some(w) => {
                let mut body = render_body(t.as_slice(), w);
                out.append(&mut body);
            },
            None => {},
        },
        None => match &c.text {
            Some(t) => push_all(&mut out, t.as_slice()),
            None => {},
        },
    }
    proof {
        assert(a =~= flag_code(c.bold, "\x1B[1m".spec_bytes()));
        assert(b =~= a + flag_code(c.italic, "\x1B[3m".spec_bytes()));
        assert(d =~= b + flag_code(c.underlined, "\x1B[4m".spec_bytes()));
        assert(e =~= d + flag_code(c.strikethrough, "\x1B[9m".spec_bytes()));
        assert(out@ =~= chat_render(*c));
    }
    out
}

/// A JSON value, with what it holds.
pub struct Json {
    value: Value,
    model: Ghost<JsonModel>,
}

impl View for Json {
    type V = JsonModel;

    closed spec fn view(&self) -> JsonModel {
        self.model@
    }
}

#[verifier::external_type_specification]
#[verifier::external_body]
pub struct ExValue(serde_json::Value);

/// Relies on `serde_json::from_str::<Value>`: the JSON value that the text spells, if
/// it is JSON.
#[verifier::external_body]
fn parse_json(s: &str) -> (r: Option<Json>)
    ensures
        match r {
            Some(j) => json_of(s@) == Some(j@),
            None => json_of(s@) is None,
        },
{
    match serde_json::from_str::<Value>(s) {
        Ok(value) => Some(Json { value, model: Ghost(json_of(s@).unwrap()) }),
        Err(_) => None,
    }
}

/// Relies on `Value::get` with a string key: the member of an object.
#[verifier::external_body]
fn json_member(v: &Json, key: &str) -> (r: Option<Json>)
    ensures
        match member_of(v@, key.spec_bytes()) {
            Some(m) => (r matches Some(x) && x@ == m),
            None => r is None,
        },
{
    match v.value.get(key) {
        Some(x) => Some(Json { value: x.clone(), model: Ghost(member_of(v@, key.spec_bytes()).unwrap()) }),
        None => None,
    }
}

/// Relies on `Value::get` with an index: the element of an array.
#[verifier::external_body]
fn json_element(v: &Json, i: usize) -> (r: Option<Json>)
    ensures
        match element_of(v@, i as int) {
            Some(m) => (r matches Some(x) && x@ == m),
            None => r is None,
        },
{
    match v.value.get(i) {
        Some(x) => Some(Json { value: x.clone(), model: Ghost(element_of(v@, i as int).unwrap()) }),
        None => None,
    }
}

/// Relies on `Value::as_bool`: the value when it is a boolean.
#[verifier::external_body]
fn json_bool(v: &Json) -> (r: Option<bool>)
    ensures
        r == match v@ {
            JsonModel::Bool(b) => Some(b),
            _ => None,
        },
{
    v.value.as_bool()
}

/// Relies on `Value::as_str`: the value's UTF-8 bytes when it is a string.
#[verifier::external_body]
fn json_text(v: &Json) -> (r: Option<Vec<u8>>)
    ensures
        match v@ {
            JsonModel::Str(b) => (r matches Some(t) && t@ == b),
            _ => r is None,
        },
{
    match v.value.as_str() {
        Some(t) => Some(t.as_bytes().to_vec()),
        None => None,
    }
}

/// Relies on `Value::as_array`: the number of elements when the value is an array.
#[verifier::external_body]
fn json_len(v: &Json) -> (r: Option<usize>)
    ensures
        match v@ {
            JsonModel::Array(items) => (r matches Some(n) && n == items.len()),
            _ => r is None,
        },
{
    match v.value.as_array() {
        Some(a) => Some(a.len()),
        None => None,
    }
}

fn member_bool(v: &Json, key: &str) -> (r: Option<bool>)
    ensures
        r == bool_member(v@, key.spec_bytes()),
{
    match json_member(v, key) {
        Some(m) => json_bool(&m),
        None => None,
    }
}

fn member_text(v: &Json, key: &str) -> (r: Option<Vec<u8>>)
    ensures
        opt_view(r) == text_member(v@, key.spec_bytes()),
{
    match json_member(v, key) {
        Some(m) => json_text(&m),
        None => None,
    }
}

fn chat_arg_of(v: &Json) -> (r: ChatArg)
    ensures
        arg_view(r) == arg_of(v@),
{
    let text = match json_text(v) {
        Some(t) => Some(t),
        None => member_text(v, "text"),
    };
    ChatArg { text, insertion: member_text(v, "insertion") }
}

fn chat_args_of(v: &Json) -> (r: Option<Vec<ChatArg>>)
    ensures
        match r {
            Some(w) => Some(args_seq(w@)),
            None => None,
        } == args_member(v@),
{
    let w = match json_member(v, "with") {
        Some(w) => w,
        None => return None,
    };
    let n = match json_len(&w) {
        Some(n) => n,
        None => return None,
    };
    let ghost items = match w@ {
        JsonModel::Array(items) => items,
        _ => Seq::empty(),
    };
    let mut args: Vec<ChatArg> = Vec::new();
    let mut i: usize = 0;
    while i < n
        invariant
            w@ == JsonModel::Array(items),
            n == items.len(),
            i <= n,
            args_seq(args@) =~= items.take(i as int).map_values(|x: JsonModel| arg_of(x)),
        decreases n - i,
    {
        let item = match json_element(&w, i) {
            Some(x) => x,
            None => return None,
        };
        assert(item@ == items[i as int]);
        let a = chat_arg_of(&item);
        let ghost prev = args@;
        args.push(a);
        proof {
            let lhs = args_seq(args@);
            let rhs = items.take(i + 1).map_values(|x: JsonModel| arg_of(x));
            assert(args_seq(prev).len() == prev.len());
            assert(items.take(i as int).map_values(|x: JsonModel| arg_of(x)).len() == i);
            assert(prev.len() == i);
            assert(lhs.len() == i + 1);
            assert(rhs.len() == i + 1);
            assert forall|k: int| 0 <= k < lhs.len() implies lhs[k] == rhs[k] by {
                if k < i {
                    assert(args@[k] == prev[k]);
                    assert(args_seq(prev)[k] == items.take(i as int).map_values(
                        |x: JsonModel| arg_of(x),
                    )[k]);
                }
            }
            assert(lhs =~= rhs);
        }
        i = i + 1;
    }
    assert(items.take(i as int) =~= items);
    Some(args)
}

/// Reads the parts of a chat component out of its JSON text; `None` where the text is
/// not JSON.
pub fn chat_component_of(json_string: &str) -> (r: Option<ChatComponent>)
    ensures
        match json_of(json_string@) {
            Some(j) => (r matches Some(c) && component_of_json(c, j)),
            None => r is None,
        },
{
    let json = match parse_json(json_string) {
        Some(j) => j,
        None => return None,
    };
    Some(
        ChatComponent {
            bold: member_bool(&json, "bold"),
            italic: member_bool(&json, "italic"),
            underlined: member_bool(&json, "underlined"),
            strikethrough: member_bool(&json, "strikethrough"),
            color: member_text(&json, "color"),
            translate: member_text(&json, "translate"),
            with: chat_args_of(&json),
            text: member_text(&json, "text"),
        },
    )
}

/// Renders the JSON text of a chat message for the terminal; a text that is not JSON
/// renders as nothing.
pub fn get_chat_message(json_string: &str) -> (r: Vec<u8>)
    ensures
        r@ == match json_of(json_string@) {
            Some(j) => json_render(j),
            None => Seq::empty(),
        },
{
    match chat_component_of(json_string) {
        Some(c) => render_chat(&c),
        None => Vec::new(),
    }
}

} // verus!
