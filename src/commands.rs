use vstd::prelude::*;
use vstd::utf8::{decode_utf8, valid_utf8};

verus! {

/// Width at which the crab's speech is wrapped.
pub const SPEECH_WIDTH: usize = 26;

/// Longest text, in characters, that the crab is asked to say. The wrapping
/// inside `ferris_says::say` sums line costs in `i32`; at this length they stay
/// below a third of `i32::MAX`.
pub const SPEECH_MAX_CHARS: usize = 100000;

/// What `ferris_says::say` writes for `text` wrapped at `width`.
pub uninterp spec fn crab_speech(text: Seq<char>, width: usize) -> Seq<u8>;

/// Relies on ferris_says::say: it writes a speech bubble of `text`, wrapped at
/// `width`, above a crab, and depends on its arguments alone. What it writes
/// is the wrapped text's own bytes and ASCII, so valid UTF-8. Writing into a
/// `Vec` cannot fail, so the only error `say` passes on never comes. The
/// length bound keeps textwrap's `i32` line costs from overflowing.
#[verifier::external_body]
fn crab_say(text: &str, width: usize) -> (r: Vec<u8>)
    requires
        1 <= width <= SPEECH_WIDTH,
        text@.len() <= SPEECH_MAX_CHARS,
    ensures
        r@ == crab_speech(text@, width),
        valid_utf8(r@),
{
    let mut buf: Vec<u8> = Vec::new();
    let _ = ferris_says::say(text.as_bytes(), width, &mut buf);
    buf
}

/// Relies on String::from_utf8: it succeeds exactly on valid UTF-8 and then
/// holds the decoded characters.
#[verifier::external_body]
fn utf8_text(bytes: Vec<u8>) -> (r: Option<String>)
    ensures
        r is Some <==> valid_utf8(bytes@),
        r matches Some(s) ==> s@ == decode_utf8(bytes@),
{
    String::from_utf8(bytes).ok()
}

/// The decimal digits of `n`, most significant first, with no leading zero.
pub open spec fn decimal(n: nat) -> Seq<char>
    decreases n,
{
    if n < 10 {
        seq![digit_char(n)]
    } else {
        decimal(n / 10).push(digit_char(n % 10))
    }
}

pub open spec fn digit_char(d: nat) -> char {
    ((d + '0' as nat) as u32) as char
}

/// The digit `d` as a one-character string.
fn digit_text(d: u64) -> (r: &'static str)
    requires
        d < 10,
    ensures
        r@ == seq![digit_char(d as nat)],
{
    proof {
        reveal_strlit("0");
        reveal_strlit("1");
        reveal_strlit("2");
        reveal_strlit("3");
        reveal_strlit("4");
        reveal_strlit("5");
        reveal_strlit("6");
        reveal_strlit("7");
        reveal_strlit("8");
        reveal_strlit("9");
    }
    let r = if d == 0 {
        "0"
    } else if d == 1 {
        "1"
    } else if d == 2 {
        "2"
    } else if d == 3 {
        "3"
    } else if d == 4 {
        "4"
    } else if d == 5 {
        "5"
    } else if d == 6 {
        "6"
    } else if d == 7 {
        "7"
    } else if d == 8 {
        "8"
    } else {
        "9"
    };
    assert(r@ =~= seq![digit_char(d as nat)]);
    r
}

/// The decimal form of `n`.
fn decimal_text(n: u64) -> (r: String)
    ensures
        r@ == decimal(n as nat),
    decreases n,
{
    if n < 10 {
        String::from_str(digit_text(n))
    } else {
        let head = decimal_text(n / 10);
        let r = head.concat(digit_text(n % 10));
        assert(r@ =~= decimal(n as nat));
        r
    }
}

/// An argument of a command, as the platform resolved it.
pub enum CommandArg {
    /// A user reference: the user's id and display tag.
    User { id: u64, tag: String },
    /// Free text.
    Text(String),
    /// Any other kind of argument.
    Other,
}

pub open spec fn user_reply(id: u64, tag: Seq<char>) -> Seq<char> {
    tag + "'s id is "@ + decimal(id as nat)
}

pub open spec fn say_reply(text: Seq<char>) -> Seq<char> {
    let b = crab_speech(text, SPEECH_WIDTH);
    if valid_utf8(b) {
        "```"@ + decode_utf8(b) + "```"@
    } else {
        "```OwO```"@
    }
}

/// The reply to command `name` with arguments `args`. Text longer than the
/// crab is asked to say gets the placeholder, as text of another kind does.
pub open spec fn reply(name: Seq<char>, args: Seq<CommandArg>) -> Seq<char> {
    if name == "ping"@ {
        "pong"@
    } else if name == "id"@ {
        if args.len() > 0 && args[0] is User {
            user_reply(args[0]->User_id, args[0]->User_tag@)
        } else {
            "Please provide a valid user"@
        }
    } else if name == "say"@ {
        if args.len() > 0 && args[0] is Text && args[0]->Text_0@.len() <= SPEECH_MAX_CHARS {
            say_reply(args[0]->Text_0@)
        } else {
            "```OwO```"@
        }
    } else {
        "not implemented :("@
    }
}

/// Any command name other than `ping`, `id` and `say` gets the fallback
/// reply, whatever its arguments.
pub proof fn unknown_command_falls_back(name: Seq<char>, args: Seq<CommandArg>)
    requires
        name != "ping"@,
        name != "id"@,
        name != "say"@,
    ensures
        reply(name, args) == "not implemented :("@,
{
}

fn text_eq(a: &str, b: &str) -> (r: bool)
    ensures
        r == (a@ == b@),
{
    String::from_str(a) == String::from_str(b)
}

/// The reply to a user reference.
pub fn describe_user(id: u64, tag: &str) -> (r: String)
    ensures
        r@ == user_reply(id, tag@),
{
    let digits = decimal_text(id);
    String::from_str(tag).concat("'s id is ").concat(digits.as_str())
}

/// Turns the bytes that the crab wrote into a fenced reply.
pub fn fence_speech(speech: Vec<u8>) -> (r: String)
    ensures
        r@ == (if valid_utf8(speech@) {
            "```"@ + decode_utf8(speech@) + "```"@
        } else {
            "```OwO```"@
        }),
{
    match utf8_text(speech) {
        Some(s) => String::from_str("```").concat(s.as_str()).concat("```"),
        None => String::from_str("```OwO```"),
    }
}

/// The crab saying `text`, in a fenced block.
pub fn crab_reply(text: &str) -> (r: String)
    requires
        text@.len() <= SPEECH_MAX_CHARS,
    ensures
        r@ == say_reply(text@),
        r@ == "```"@ + decode_utf8(crab_speech(text@, SPEECH_WIDTH)) + "```"@,
{
    fence_speech(crab_say(text, SPEECH_WIDTH))
}

/// Computes the reply to command `name` with arguments `args`.
pub fn dispatch(name: &str, args: &Vec<CommandArg>) -> (r: String)
    ensures
        r@ == reply(name@, args@),
{
    if text_eq(name, "ping") {
        String::from_str("pong")
    } else if text_eq(name, "id") {
        if args.len() > 0 {
            if let CommandArg::User { id, tag } = &args[0] {
                return describe_user(*id, tag.as_str());
            }
        }
        String::from_str("Please provide a valid user")
    } else if text_eq(name, "say") {
        if args.len() > 0 {
            if let CommandArg::Text(t) = &args[0] {
                if t.as_str().unicode_len() <= SPEECH_MAX_CHARS {
                    return crab_reply(t.as_str());
                }
            }
        }
        String::from_str("```OwO```")
    } else {
        String::from_str("not implemented :(")
    }
}

} // verus!
