//! The command-line chat client: its arguments, the URLs it asks for and what
//! it prints of the frames that the server sends.
//!
//! Usage: `client --user-id=alice --region=us-east --to=bob [--router=<url>]`.
use vstd::prelude::*;
use crate::text;

verus! {

/// The client's arguments.
#[derive(Debug, Clone)]
pub struct Args {
    pub user_id: String,
    pub region: String,
    pub to: String,
    pub router: String,
}

/// What the arguments are made of.
pub struct ArgsView {
    pub user_id: Seq<char>,
    pub region: Seq<char>,
    pub to: Seq<char>,
    pub router: Seq<char>,
}

impl View for Args {
    type V = ArgsView;

    open spec fn view(&self) -> ArgsView {
        ArgsView {
            user_id: self.user_id@,
            region: self.region@,
            to: self.to@,
            router: self.router@,
        }
    }
}

/// The value given by the last argument of the form `<flag><value>`, if any.
pub open spec fn last_flag_value(args: Seq<Seq<char>>, flag: Seq<char>) -> Option<Seq<char>>
    decreases args.len(),
{
    if args.len() == 0 {
        None
    } else if text::starts_with(args.last(), flag) {
        Some(args.last().skip(flag.len() as int))
    } else {
        last_flag_value(args.drop_last(), flag)
    }
}

/// The router that the client asks when none is given.
pub open spec fn default_router() -> Seq<char> {
    "http://localhost:8080"@
}

/// What the arguments say: the last `--user-id=`, `--region=`, `--to=` and
/// `--router=` win; the first three are required, in that order, and the
/// router defaults to `http://localhost:8080`; other arguments are ignored.
pub open spec fn args_of(args: Seq<Seq<char>>) -> Result<ArgsView, Seq<char>> {
    let user_id = last_flag_value(args, "--user-id="@);
    let region = last_flag_value(args, "--region="@);
    let to = last_flag_value(args, "--to="@);
    let router = last_flag_value(args, "--router="@);
    if user_id is None {
        Err("--user-id is required"@)
    } else if region is None {
        Err("--region is required"@)
    } else if to is None {
        Err("--to is required. Example: --to=bob"@)
    } else {
        Ok(
            ArgsView {
                user_id: user_id->0,
                region: region->0,
                to: to->0,
                router: match router {
                    Some(r) => r,
                    None => default_router(),
                },
            },
        )
    }
}

/// The value that the last argument starting with `flag` gives, among the
/// first `n` arguments.
fn last_flag(args: &Vec<String>, flag: &str) -> (r: Option<String>)
    ensures
        match r {
            Some(v) => last_flag_value(args@.map_values(|a: String| a@), flag@) == Some(v@),
            None => last_flag_value(args@.map_values(|a: String| a@), flag@) is None,
        },
{
    let ghost all = args@.map_values(|a: String| a@);
    let f = text::chars_of(flag);
    let mut found: Option<String> = None;
    for i in 0..args.len()
        invariant
            all == args@.map_values(|a: String| a@),
            f@ == flag@,
            match found {
                Some(v) => last_flag_value(all.take(i as int), flag@) == Some(v@),
                None => last_flag_value(all.take(i as int), flag@) is None,
            },
    {
        assert(all.take(i + 1).drop_last() =~= all.take(i as int));
        assert(all.take(i + 1).last() == args@[i as int]@);
        let a = text::chars_of(args[i].as_str());
        if text::starts_with_chars(&a, &f) {
            let v = text::sub_chars(&a, f.len(), a.len());
            assert(v@ =~= a@.skip(f@.len() as int));
            found = Some(text::string_of(&v));
        }
    }
    assert(all.take(args.len() as int) =~= all);
    found
}

/// Reads the client's arguments (without the program name).
pub fn parse_args(raw: Vec<String>) -> (r: Result<Args, String>)
    ensures
        match (r, args_of(raw@.map_values(|a: String| a@))) {
            (Ok(a), Ok(v)) => a@ == v,
            (Err(e), Err(m)) => e@ == m,
            _ => false,
        },
{
    let user_id = last_flag(&raw, "--user-id=");
    let region = last_flag(&raw, "--region=");
    let to = last_flag(&raw, "--to=");
    let router = last_flag(&raw, "--router=");
    let user_id = match user_id {
        Some(u) => u,
        None => {
            return Err(text::string_of(&text::chars_of("--user-id is required")));
        },
    };
    let region = match region {
        Some(r) => r,
        None => {
            return Err(text::string_of(&text::chars_of("--region is required")));
        },
    };
    let to = match to {
        Some(t) => t,
        None => {
            return Err(text::string_of(&text::chars_of("--to is required. Example: --to=bob")));
        },
    };
    let router = match router {
        Some(r) => r,
        None => text::string_of(&text::chars_of("http://localhost:8080")),
    };
    Ok(Args { user_id, region, to, router })
}

/// The router request for a region: `<router>/route?region=<region>`.
pub open spec fn route_url_of(router: Seq<char>, region: Seq<char>) -> Seq<char> {
    router + "/route?region="@ + region
}

/// The URL that asks the router which server handles `region`.
pub fn route_url(router: &str, region: &str) -> (u: String)
    ensures
        u@ == route_url_of(router@, region@),
        u@ == router@ + "/route?region="@ + region@,
{
    let a = text::concat_chars(&text::chars_of(router), &text::chars_of("/route?region="));
    text::string_of(&text::concat_chars(&a, &text::chars_of(region)))
}

/// The WebSocket URL of a user: `<ws_url>?user_id=<user_id>`.
pub open spec fn connect_url_of(ws_url: Seq<char>, user_id: Seq<char>) -> Seq<char> {
    ws_url + "?user_id="@ + user_id
}

/// The URL with which user `user_id` connects to the server at `ws_url`.
pub fn connect_url(ws_url: &str, user_id: &str) -> (u: String)
    ensures
        u@ == connect_url_of(ws_url@, user_id@),
        u@ == ws_url@ + "?user_id="@ + user_id@,
{
    let a = text::concat_chars(&text::chars_of(ws_url), &text::chars_of("?user_id="));
    text::string_of(&text::concat_chars(&a, &text::chars_of(user_id)))
}

/// What a typed line sends: the line without surrounding white space, or
/// nothing when that is empty.
pub fn outgoing_content(line: &str) -> (r: Option<String>)
    ensures
        match r {
            Some(c) => c@ == text::trim(line@) && c@.len() > 0,
            None => text::trim(line@).len() == 0,
        },
{
    let t = text::trim_chars(&text::chars_of(line));
    if t.len() == 0 {
        None
    } else {
        Some(text::string_of(&t))
    }
}

/// A frame from the server, as the client reads it; `kind` is its `type`.
#[derive(Debug, Clone)]
pub struct ServerFrame {
    pub kind: String,
    pub from: Option<String>,
    pub content: Option<String>,
    pub user_id: Option<String>,
    pub region: Option<String>,
}

/// The text of an optional field, or `default` when it is absent.
pub open spec fn field_or(f: Option<String>, default: Seq<char>) -> Seq<char> {
    match f {
        Some(s) => s@,
        None => default,
    }
}

/// What the client prints for a text frame `text` that reads as `frame`
/// (`None` when it is not a server frame): one line per element.
pub open spec fn frame_lines_of(frame: Option<ServerFrame>, text: Seq<char>) -> Seq<Seq<char>> {
    match frame {
        None => seq!["[server] "@ + text],
        Some(f) => if f.kind@ == "connected"@ {
            seq![
                "[connected] You are '"@ + field_or(f.user_id, Seq::empty()) + "' in region '"@
                    + field_or(f.region, Seq::empty()) + "'"@,
                "Type your messages below (press Ctrl+C to exit):\n"@,
            ]
        } else if f.kind@ == "message"@ {
            seq!["["@ + field_or(f.from, "unknown"@) + "]: "@ + field_or(f.content, Seq::empty())]
        } else {
            seq!["[server] "@ + f.kind@ + ": "@ + text]
        },
    }
}

/// The characters of an optional field, or of `default` when it is absent.
fn field_chars(f: &Option<String>, default: &str) -> (r: Vec<char>)
    ensures
        r@ == field_or(*f, default@),
{
    match f {
        Some(s) => text::chars_of(s.as_str()),
        None => text::chars_of(default),
    }
}

/// Whether a string is exactly `word`.
fn is_word(s: &str, word: &str) -> (b: bool)
    ensures
        b == (s@ == word@),
{
    text::lex_compare(&text::chars_of(s), &text::chars_of(word)) == 0
}

/// The lines that the client prints for text frame `text`, given what it
/// reads as (`None` when it is not a server frame).
pub fn frame_lines(frame: &Option<ServerFrame>, text: &str) -> (lines: Vec<String>)
    ensures
        lines@.map_values(|l: String| l@) == frame_lines_of(*frame, text@),
{
    let mut lines: Vec<String> = Vec::new();
    match frame {
        None => {
            let l = text::concat_chars(&text::chars_of("[server] "), &text::chars_of(text));
            lines.push(text::string_of(&l));
        },
        Some(f) => {
            if is_word(f.kind.as_str(), "connected") {
                let a = text::concat_chars(
                    &text::chars_of("[connected] You are '"),
                    &field_chars(&f.user_id, ""),
                );
                let b = text::concat_chars(&a, &text::chars_of("' in region '"));
                let c = text::concat_chars(&b, &field_chars(&f.region, ""));
                let d = text::concat_chars(&c, &text::chars_of("'"));
                lines.push(text::string_of(&d));
                lines.push(
                    text::string_of(
                        &text::chars_of("Type your messages below (press Ctrl+C to exit):\n"),
                    ),
                );
                proof {
                    assert(""@ == Seq::<char>::empty()) by {
                        reveal_strlit("");
                    }
                }
            } else if is_word(f.kind.as_str(), "message") {
                let a = text::concat_chars(&text::chars_of("["), &field_chars(&f.from, "unknown"));
                let b = text::concat_chars(&a, &text::chars_of("]: "));
                let c = text::concat_chars(&b, &field_chars(&f.content, ""));
                lines.push(text::string_of(&c));
                proof {
                    assert(""@ == Seq::<char>::empty()) by {
                        reveal_strlit("");
                    }
                }
            } else {
                let a = text::concat_chars(&text::chars_of("[server] "), &text::chars_of(f.kind.as_str()));
                let b = text::concat_chars(&a, &text::chars_of(": "));
                let c = text::concat_chars(&b, &text::chars_of(text));
                lines.push(text::string_of(&c));
            }
        },
    }
    assert(lines@.map_values(|l: String| l@) =~= frame_lines_of(*frame, text@));
    lines
}

/// The router request asks the router it is given about the region it is
/// given: it begins with the router, then `/route?region=`, then ends with
/// the region.
pub proof fn law_route_url_names_router_and_region(router: Seq<char>, region: Seq<char>)
    ensures
        route_url_of(router, region) == router + "/route?region="@ + region,
        text::starts_with(route_url_of(router, region), router),
        text::ends_with(route_url_of(router, region), region),
        route_url_of(router, region).len() == router.len() + ("/route?region="@).len()
            + region.len(),
{
    let u = router + "/route?region="@ + region;
    assert(u.take(router.len() as int) =~= router);
    assert(u.skip(u.len() - region.len()) =~= region);
}

/// The WebSocket URL connects to the server it is given as the user it is
/// given: it begins with that server's URL, then `?user_id=`, then ends with
/// the user id.
pub proof fn law_connect_url_names_server_and_user(ws_url: Seq<char>, user_id: Seq<char>)
    ensures
        connect_url_of(ws_url, user_id) == ws_url + "?user_id="@ + user_id,
        text::starts_with(connect_url_of(ws_url, user_id), ws_url),
        text::ends_with(connect_url_of(ws_url, user_id), user_id),
        connect_url_of(ws_url, user_id).len() == ws_url.len() + ("?user_id="@).len()
            + user_id.len(),
{
    let u = ws_url + "?user_id="@ + user_id;
    assert(u.take(ws_url.len() as int) =~= ws_url);
    assert(u.skip(u.len() - user_id.len()) =~= user_id);
}

/// A chat frame prints one line naming its sender: `[<from>]: <content>`
/// when the frame has a `from` field; `unknown` stands in only when it has
/// none. The other fields of the frame and its raw text play no part.
pub proof fn law_chat_frame_names_its_sender(frame: ServerFrame, raw: Seq<char>)
    requires
        frame.kind@ == "message"@,
    ensures
        ({
            let content = match frame.content {
                Some(c) => c@,
                None => Seq::<char>::empty(),
            };
            &&& frame.from matches Some(f) ==> frame_lines_of(Some(frame), raw) == seq![
                "["@ + f@ + "]: "@ + content,
            ]
            &&& frame.from is None ==> frame_lines_of(Some(frame), raw) == seq![
                "["@ + "unknown"@ + "]: "@ + content,
            ]
        }),
{
    reveal_strlit("message");
    reveal_strlit("connected");
    assert("message"@ != "connected"@) by {
        assert("message"@[0] != "connected"@[0]);
    }
}

} // verus!
