//! What bridge clients send: named events, pings and hellos.
//!
//! A message names its type. An `event` message carries the event's name;
//! `ping` and `hello` are answered; any other type is itself the name of an
//! event, for clients that speak raw RTVI.

use vstd::prelude::*;
use vstd::string::StringExecFns;
use crate::text::{
    chars_of, contains, law_contained_text_can_be_cut_out, occurs, occurs_at, same_text,
    starts_with, string_of,
};

verus! {

/// A JSON value, carried from a message to the exported session unread.
#[verifier::external_type_specification]
#[verifier::external_body]
pub struct ExJsonValue(serde_json::Value);

/// A bridge message as decoded from the wire.
pub struct InboundMsg {
    pub msg_type: String,
    pub name: Option<String>,
    pub source: Option<String>,
    pub meta: Option<serde_json::Value>,
}

/// What a bridge message asks for.
pub enum Parsed {
    /// Something happened in the pipeline. Absent `meta` is a JSON null.
    Event { name: String, source: String, meta: Option<serde_json::Value> },
    /// The client wants the receive time.
    Ping,
    /// The client introduces itself.
    Hello,
    /// Nothing usable.
    Ignored,
}

/// What `char::is_uppercase` says of a character.
pub uninterp spec fn unicode_uppercase(c: char) -> bool;

/// What `char::is_lowercase` says of a character.
pub uninterp spec fn unicode_lowercase(c: char) -> bool;

/// What `char::is_numeric` says of a character.
pub uninterp spec fn unicode_numeric(c: char) -> bool;

/// The characters that `char::to_lowercase` yields.
pub uninterp spec fn unicode_lowered(c: char) -> Seq<char>;

/// `char::is_uppercase` is a fixed Unicode property; in ASCII it holds of the
/// capital letters alone.
pub assume_specification[ char::is_uppercase ](c: char) -> (b: bool)
    ensures
        b == unicode_uppercase(c),
        c as u32 <= 0x7f ==> b == ('A' as u32 <= c as u32 <= 'Z' as u32),
;

/// `char::is_lowercase` is a fixed Unicode property; in ASCII it holds of the
/// small letters alone.
pub assume_specification[ char::is_lowercase ](c: char) -> (b: bool)
    ensures
        b == unicode_lowercase(c),
        c as u32 <= 0x7f ==> b == ('a' as u32 <= c as u32 <= 'z' as u32),
;

/// `char::is_numeric` is a fixed Unicode property; in ASCII it holds of the
/// digits alone.
pub assume_specification[ char::is_numeric ](c: char) -> (b: bool)
    ensures
        b == unicode_numeric(c),
        c as u32 <= 0x7f ==> b == ('0' as u32 <= c as u32 <= '9' as u32),
;

/// `char::to_lowercase` yields a fixed Unicode mapping; an ASCII capital letter
/// maps to its small letter, any other ASCII character to itself.
#[verifier::external_body]
fn lowered(c: char) -> (chars: Vec<char>)
    ensures
        chars@ == unicode_lowered(c),
        'A' as u32 <= c as u32 <= 'Z' as u32 ==> chars@ == seq![(c as u32 + 32) as char],
        c as u32 <= 0x7f && !('A' as u32 <= c as u32 <= 'Z' as u32) ==> chars@ == seq![c],
{
    c.to_lowercase().collect()
}

/// Characters that separate the words of a name.
pub open spec fn is_separator(c: char) -> bool {
    c == '-' || c == ' ' || c == '.'
}

/// A name under conversion.
#[verifier::ext_equal]
pub struct SnakeName {
    pub text: Seq<char>,
    /// The last character taken was a small letter or a digit.
    pub prev_lower: bool,
}

/// `text` ending in an underscore.
pub open spec fn underscored(text: Seq<char>) -> Seq<char> {
    if text.len() > 0 && text.last() == '_' {
        text
    } else {
        text.push('_')
    }
}

/// What counts as a letter or digit, and which small letters go with a capital.
pub struct Letters {
    pub capital: spec_fn(char) -> bool,
    pub small_or_digit: spec_fn(char) -> bool,
    pub lowered: spec_fn(char) -> Seq<char>,
}

/// Letters and digits as Unicode has them.
pub open spec fn unicode_letters() -> Letters {
    Letters {
        capital: |c: char| unicode_uppercase(c),
        small_or_digit: |c: char| unicode_lowercase(c) || unicode_numeric(c),
        lowered: |c: char| unicode_lowered(c),
    }
}

/// An ASCII capital letter.
pub open spec fn ascii_capital(c: char) -> bool {
    'A' as u32 <= c as u32 <= 'Z' as u32
}

/// The small letter of an ASCII capital letter; any other character itself.
pub open spec fn ascii_lowered(c: char) -> char {
    if ascii_capital(c) {
        (c as u32 + 32) as char
    } else {
        c
    }
}

/// Letters and digits of ASCII.
pub open spec fn ascii_letters() -> Letters {
    Letters {
        capital: |c: char| ascii_capital(c),
        small_or_digit: |c: char|
            'a' as u32 <= c as u32 <= 'z' as u32 || '0' as u32 <= c as u32 <= '9' as u32,
        lowered: |c: char| seq![ascii_lowered(c)],
    }
}

/// All characters are ASCII.
pub open spec fn ascii_text(text: Seq<char>) -> bool {
    forall|i: int| 0 <= i < text.len() ==> #[trigger] text[i] as u32 <= 0x7f
}

/// One more character: separators become one underscore, a capital letter is
/// lowered and starts a new word after a small letter or digit.
pub open spec fn snake_step(s: SnakeName, c: char, letters: Letters) -> SnakeName {
    if is_separator(c) {
        SnakeName { text: underscored(s.text), prev_lower: false }
    } else if (letters.capital)(c) {
        SnakeName {
            text: (if s.prev_lower {
                underscored(s.text)
            } else {
                s.text
            }) + (letters.lowered)(c),
            prev_lower: false,
        }
    } else {
        SnakeName { text: s.text.push(c), prev_lower: (letters.small_or_digit)(c) }
    }
}

/// The snake_case form of `name`.
pub open spec fn snaked(name: Seq<char>, letters: Letters) -> SnakeName
    decreases name.len(),
{
    if name.len() == 0 {
        SnakeName { text: Seq::empty(), prev_lower: false }
    } else {
        snake_step(snaked(name.drop_last(), letters), name.last(), letters)
    }
}

/// The snake_case form of any name.
pub open spec fn snake_name(name: Seq<char>) -> Seq<char> {
    snaked(name, unicode_letters()).text
}

/// The snake_case form of an ASCII name.
pub open spec fn ascii_snake_name(name: Seq<char>) -> Seq<char> {
    snaked(name, ascii_letters()).text
}

/// ASCII without separators and capital letters.
pub open spec fn is_canonical(text: Seq<char>) -> bool {
    forall|i: int|
        0 <= i < text.len() ==> {
            &&& #[trigger] text[i] as u32 <= 0x7f
            &&& !is_separator(text[i])
            &&& !ascii_capital(text[i])
        }
}

/// What a name is made of besides the separation of its words: its characters
/// without separators and underscores, capital letters lowered.
pub open spec fn substance(name: Seq<char>) -> Seq<char>
    decreases name.len(),
{
    if name.len() == 0 {
        Seq::empty()
    } else if is_separator(name.last()) || name.last() == '_' {
        substance(name.drop_last())
    } else {
        substance(name.drop_last()).push(ascii_lowered(name.last()))
    }
}

/// `text` is `name` in snake_case.
pub open spec fn normalized(text: Seq<char>, name: Seq<char>) -> bool {
    &&& text == snake_name(name)
    &&& ascii_text(name) ==> text == ascii_snake_name(name)
}

/// Ends `text` in an underscore.
fn underscore(text: &mut Vec<char>)
    ensures
        final(text)@ == underscored(old(text)@),
{
    if text.len() == 0 || text[text.len() - 1] != '_' {
        text.push('_');
    }
}

/// Canonicalizes an event name to snake_case: RTVI uses kebab-case, Pipecat
/// frames use CamelCase.
pub fn normalize_name(name: &str) -> (text: String)
    ensures
        normalized(text@, name@),
        ascii_text(name@) ==> {
            &&& is_canonical(text@)
            &&& substance(text@) == substance(name@)
            &&& ascii_snake_name(text@) == text@
        },
{
    let chars = chars_of(name);
    let mut out: Vec<char> = Vec::new();
    let mut prev_lower = false;
    let mut i: usize = 0;
    while i < chars.len()
        invariant
            chars@ == name@,
            i <= chars@.len(),
            (SnakeName { text: out@, prev_lower }) == snaked(
                chars@.take(i as int),
                unicode_letters(),
            ),
            ascii_text(name@) ==> (SnakeName { text: out@, prev_lower }) == snaked(
                chars@.take(i as int),
                ascii_letters(),
            ),
        decreases chars@.len() - i,
    {
        let c = chars[i];
        assert(chars@.take(i + 1).drop_last() =~= chars@.take(i as int));
        if c == '-' || c == ' ' || c == '.' {
            underscore(&mut out);
            prev_lower = false;
        } else if c.is_uppercase() {
            if prev_lower {
                underscore(&mut out);
            }
            let mut low = lowered(c);
            out.append(&mut low);
            prev_lower = false;
        } else {
            out.push(c);
            prev_lower = c.is_lowercase() || c.is_numeric();
        }
        i = i + 1;
    }
    proof {
        assert(chars@.take(chars@.len() as int) =~= chars@);
        if ascii_text(name@) {
            law_ascii_names_become_canonical(name@);
        }
    }
    string_of(&out)
}

/// The text of `value`, or `otherwise` where there is none.
pub open spec fn text_or(value: Option<String>, otherwise: Seq<char>) -> Seq<char> {
    match value {
        Some(s) => s@,
        None => otherwise,
    }
}

fn or_default(value: Option<String>, otherwise: &str) -> (text: String)
    ensures
        text@ == text_or(value, otherwise@),
{
    match value {
        Some(s) => s,
        None => String::from_str(otherwise),
    }
}

/// Decides what a decoded message asks for.
pub fn interpret(msg: InboundMsg) -> (parsed: Parsed)
    ensures
        msg.msg_type@ == "event"@ && msg.name is None ==> parsed is Ignored,
        msg.msg_type@ == "event"@ && msg.name is Some ==> {
            &&& parsed is Event
            &&& normalized(parsed->name@, msg.name->0@)
            &&& parsed->source@ == text_or(msg.source, "bridge"@)
            &&& parsed->meta == msg.meta
        },
        msg.msg_type@ == "ping"@ ==> parsed is Ping,
        msg.msg_type@ == "hello"@ ==> parsed is Hello,
        msg.msg_type@.len() == 0 ==> parsed is Ignored,
        msg.msg_type@ != "event"@ && msg.msg_type@ != "ping"@ && msg.msg_type@ != "hello"@
            && msg.msg_type@.len() > 0 ==> {
            &&& parsed is Event
            &&& normalized(parsed->name@, msg.msg_type@)
            &&& parsed->source@ == text_or(msg.source, "rtvi-raw"@)
            &&& parsed->meta == msg.meta
        },
{
    proof {
        reveal_strlit("event");
        reveal_strlit("ping");
        reveal_strlit("hello");
        assert("event"@.len() != "ping"@.len());
        assert("event"@[0] != "hello"@[0]);
        assert("ping"@.len() != "hello"@.len());
    }
    if same_text(msg.msg_type.as_str(), "event") {
        match msg.name {
            Some(name) => Parsed::Event {
                name: normalize_name(name.as_str()),
                source: or_default(msg.source, "bridge"),
                meta: msg.meta,
            },
            None => Parsed::Ignored,
        }
    } else if same_text(msg.msg_type.as_str(), "ping") {
        Parsed::Ping
    } else if same_text(msg.msg_type.as_str(), "hello") {
        Parsed::Hello
    } else if same_text(msg.msg_type.as_str(), "") {
        proof {
            reveal_strlit("");
        }
        Parsed::Ignored
    } else {
        proof {
            reveal_strlit("");
            assert(msg.msg_type@.len() == 0 ==> msg.msg_type@ =~= ""@);
        }
        Parsed::Event {
            name: normalize_name(msg.msg_type.as_str()),
            source: or_default(msg.source, "rtvi-raw"),
            meta: msg.meta,
        }
    }
}

/// Category used for marker colors and filtering.
#[derive(Clone, Copy, Debug, PartialEq, Eq, Structural)]
pub enum EventCategory {
    User,
    Bot,
    Tts,
    Llm,
    Stt,
    Metrics,
    Other,
}

impl EventCategory {
    /// Every category, in display order.
    pub const ALL: [EventCategory; 7] = [
        EventCategory::User,
        EventCategory::Bot,
        EventCategory::Tts,
        EventCategory::Llm,
        EventCategory::Stt,
        EventCategory::Metrics,
        EventCategory::Other,
    ];

    pub open spec fn label_text(self) -> Seq<char> {
        match self {
            EventCategory::User => "User"@,
            EventCategory::Bot => "Bot"@,
            EventCategory::Tts => "TTS"@,
            EventCategory::Llm => "LLM"@,
            EventCategory::Stt => "STT / transcripts"@,
            EventCategory::Metrics => "Metrics"@,
            EventCategory::Other => "Other"@,
        }
    }

    /// The category's display name.
    pub fn label(self) -> (text: &'static str)
        ensures
            text@ == self.label_text(),
    {
        match self {
            EventCategory::User => "User",
            EventCategory::Bot => "Bot",
            EventCategory::Tts => "TTS",
            EventCategory::Llm => "LLM",
            EventCategory::Stt => "STT / transcripts",
            EventCategory::Metrics => "Metrics",
            EventCategory::Other => "Other",
        }
    }
}

/// The category that an event name belongs to. Metrics come first: names such
/// as `llm_metrics` are metrics about a service, not its lifecycle events.
pub open spec fn category_of(name: Seq<char>) -> EventCategory {
    if occurs(name, "metric"@) {
        EventCategory::Metrics
    } else if occurs_at(name, "user_"@, 0) {
        EventCategory::User
    } else if occurs(name, "tts"@) {
        EventCategory::Tts
    } else if occurs(name, "llm"@) {
        EventCategory::Llm
    } else if occurs(name, "stt"@) || occurs(name, "transcript"@) {
        EventCategory::Stt
    } else if occurs_at(name, "bot_"@, 0) {
        EventCategory::Bot
    } else {
        EventCategory::Other
    }
}

/// Sorts an event name into its category.
pub fn categorize(name: &str) -> (category: EventCategory)
    ensures
        category == category_of(name@),
{
    if contains(name, "metric") {
        EventCategory::Metrics
    } else if starts_with(name, "user_") {
        EventCategory::User
    } else if contains(name, "tts") {
        EventCategory::Tts
    } else if contains(name, "llm") {
        EventCategory::Llm
    } else if contains(name, "stt") || contains(name, "transcript") {
        EventCategory::Stt
    } else if starts_with(name, "bot_") {
        EventCategory::Bot
    } else {
        EventCategory::Other
    }
}

/// A name with neither separators nor capital letters is already in snake_case.
pub proof fn law_snake_case_is_kept(name: Seq<char>, letters: Letters)
    requires
        forall|i: int|
            0 <= i < name.len() ==> !is_separator(#[trigger] name[i]) && !(letters.capital)(
                name[i],
            ),
    ensures
        snaked(name, letters).text == name,
    decreases name.len(),
{
    if name.len() > 0 {
        let rest = name.drop_last();
        assert forall|i: int| 0 <= i < rest.len() implies !is_separator(#[trigger] rest[i]) && !(
        letters.capital)(rest[i]) by {
            assert(rest[i] == name[i]);
        }
        law_snake_case_is_kept(rest, letters);
        assert(name.last() == name[name.len() - 1]);
    }
    assert(snaked(name, letters).text =~= name);
}

proof fn lemma_substance_underscored(text: Seq<char>)
    ensures
        substance(underscored(text)) == substance(text),
{
    assert(text.push('_').drop_last() =~= text);
}

/// The snake_case form of an ASCII name has neither separators nor capital
/// letters and keeps everything else; normalizing it again changes nothing.
pub proof fn law_ascii_names_become_canonical(name: Seq<char>)
    requires
        ascii_text(name),
    ensures
        is_canonical(ascii_snake_name(name)),
        substance(ascii_snake_name(name)) == substance(name),
        ascii_snake_name(ascii_snake_name(name)) == ascii_snake_name(name),
    decreases name.len(),
{
    if name.len() > 0 {
        let rest = name.drop_last();
        assert(ascii_text(rest)) by {
            assert forall|i: int| 0 <= i < rest.len() implies #[trigger] rest[i] as u32 <= 0x7f by {
                assert(rest[i] == name[i]);
            }
        }
        law_ascii_names_become_canonical(rest);
        let before = snaked(rest, ascii_letters());
        let c = name.last();
        assert(name[name.len() - 1] == c);
        let text = ascii_snake_name(name);
        assert(is_canonical(underscored(before.text)));
        lemma_substance_underscored(before.text);
        if !is_separator(c) {
            let head = if ascii_capital(c) && before.prev_lower {
                underscored(before.text)
            } else {
                before.text
            };
            assert(text =~= head.push(ascii_lowered(c)));
            assert(text.drop_last() =~= head);
        }
    }
    law_snake_case_is_kept(ascii_snake_name(name), ascii_letters());
}

/// A name that mentions metrics is about metrics, whatever else it mentions.
pub proof fn law_metrics_come_first(before: Seq<char>, after: Seq<char>)
    ensures
        category_of(before + "metric"@ + after) == EventCategory::Metrics,
{
    law_contained_text_can_be_cut_out(before + "metric"@ + after, "metric"@);
}

/// The other categories, in the order in which they are told: what the user does,
/// synthesis, the model, transcription, and last what the bot does.
pub proof fn law_categories_by_name(before: Seq<char>, after: Seq<char>)
    ensures
        ({
            let name = "user_"@ + after;
            !occurs(name, "metric"@) ==> category_of(name) == EventCategory::User
        }),
        ({
            let name = before + "tts"@ + after;
            !occurs(name, "metric"@) && !occurs_at(name, "user_"@, 0) ==> category_of(name)
                == EventCategory::Tts
        }),
        ({
            let name = before + "llm"@ + after;
            !occurs(name, "metric"@) && !occurs_at(name, "user_"@, 0) && !occurs(name, "tts"@)
                ==> category_of(name) == EventCategory::Llm
        }),
        ({
            let name = before + "stt"@ + after;
            !occurs(name, "metric"@) && !occurs_at(name, "user_"@, 0) && !occurs(name, "tts"@)
                && !occurs(name, "llm"@) ==> category_of(name) == EventCategory::Stt
        }),
        ({
            let name = before + "transcript"@ + after;
            !occurs(name, "metric"@) && !occurs_at(name, "user_"@, 0) && !occurs(name, "tts"@)
                && !occurs(name, "llm"@) ==> category_of(name) == EventCategory::Stt
        }),
        ({
            let name = "bot_"@ + after;
            !occurs(name, "metric"@) && !occurs(name, "tts"@) && !occurs(name, "llm"@) && !occurs(
                name,
                "stt"@,
            ) && !occurs(name, "transcript"@) && !occurs_at(name, "user_"@, 0) ==> category_of(name)
                == EventCategory::Bot
        }),
{
    law_contained_text_can_be_cut_out(before + "tts"@ + after, "tts"@);
    law_contained_text_can_be_cut_out(before + "llm"@ + after, "llm"@);
    law_contained_text_can_be_cut_out(before + "stt"@ + after, "stt"@);
    law_contained_text_can_be_cut_out(before + "transcript"@ + after, "transcript"@);
    let user = "user_"@ + after;
    let bot = "bot_"@ + after;
    assert(user.subrange(0, "user_"@.len() as int) =~= "user_"@);
    assert(bot.subrange(0, "bot_"@.len() as int) =~= "bot_"@);
}

/// Any other name is in no category of its own.
pub proof fn law_other_names(name: Seq<char>)
    ensures
        !occurs(name, "metric"@) && !occurs_at(name, "user_"@, 0) && !occurs(name, "tts"@)
            && !occurs(name, "llm"@) && !occurs(name, "stt"@) && !occurs(name, "transcript"@)
            && !occurs_at(name, "bot_"@, 0) ==> category_of(name) == EventCategory::Other,
{
}

/// A hyphen, a blank or a dot ends a word with one underscore, also where there
/// are several of them.
pub proof fn law_separators_become_one_underscore(name: Seq<char>, c: char, letters: Letters)
    requires
        c == '-' || c == ' ' || c == '.',
    ensures
        ({
            let before = snaked(name, letters).text;
            let after = snaked(name.push(c), letters).text;
            &&& before.len() > 0 && before.last() == '_' ==> after == before
            &&& before.len() == 0 || before.last() != '_' ==> after == before.push('_')
        }),
{
    assert(name.push(c).drop_last() =~= name);
}

/// A capital letter behind a small letter or a digit begins a new word, set off
/// by an underscore.
pub proof fn law_capital_begins_a_word(name: Seq<char>, p: char, c: char, letters: Letters)
    requires
        p != '-' && p != ' ' && p != '.' && p != '_',
        !(letters.capital)(p),
        (letters.small_or_digit)(p),
        c != '-' && c != ' ' && c != '.',
        (letters.capital)(c),
    ensures
        snaked(name.push(p).push(c), letters).text == snaked(name, letters).text + seq![p, '_'] + (
        letters.lowered)(c),
{
    assert(name.push(p).push(c).drop_last() =~= name.push(p));
    assert(name.push(p).drop_last() =~= name);
    assert(snaked(name.push(p), letters).text =~= snaked(name, letters).text.push(p));
    assert(snaked(name.push(p).push(c), letters).text =~= snaked(name, letters).text + seq![p, '_']
        + (letters.lowered)(c));
}

/// A capital letter anywhere else, first of all or behind another capital, a
/// separator or a sign, is only lowered.
pub proof fn law_capital_elsewhere_is_lowered(name: Seq<char>, p: char, c: char, letters: Letters)
    requires
        p == '-' || p == ' ' || p == '.' || (letters.capital)(p) || !(letters.small_or_digit)(p),
        c != '-' && c != ' ' && c != '.',
        (letters.capital)(c),
    ensures
        snaked(name.push(p).push(c), letters).text == snaked(name.push(p), letters).text + (
        letters.lowered)(c),
        snaked(seq![c], letters).text == (letters.lowered)(c),
{
    assert(name.push(p).push(c).drop_last() =~= name.push(p));
    assert(name.push(p).drop_last() =~= name);
    reveal_with_fuel(snaked, 2);
    assert(seq![c].drop_last() =~= Seq::empty());
    assert(snaked(seq![c], letters).text =~= (letters.lowered)(c));
}

/// Every other character is kept.
pub proof fn law_other_characters_are_kept(name: Seq<char>, c: char, letters: Letters)
    requires
        c != '-' && c != ' ' && c != '.',
        !(letters.capital)(c),
    ensures
        snaked(name.push(c), letters).text == snaked(name, letters).text.push(c),
{
    assert(name.push(c).drop_last() =~= name);
}

/// A name is normalized by what Unicode says of its characters, and an ASCII name
/// by the alphabet.
pub proof fn law_letters(c: char)
    ensures
        (unicode_letters().capital)(c) == unicode_uppercase(c),
        (unicode_letters().small_or_digit)(c) == (unicode_lowercase(c) || unicode_numeric(c)),
        (unicode_letters().lowered)(c) == unicode_lowered(c),
        (ascii_letters().capital)(c) == ('A' <= c <= 'Z'),
        (ascii_letters().small_or_digit)(c) == ('a' <= c <= 'z' || '0' <= c <= '9'),
        'A' <= c <= 'Z' ==> (ascii_letters().lowered)(c) == seq![(c as u32 + 32) as char],
        !('A' <= c <= 'Z') ==> (ascii_letters().lowered)(c) == seq![c],
{
}

/// What is normalized is the whole name.
pub proof fn law_normalized_is_the_snake_case_form(text: Seq<char>, name: Seq<char>)
    requires
        normalized(text, name),
    ensures
        text == snaked(name, unicode_letters()).text,
        (forall|i: int| 0 <= i < name.len() ==> #[trigger] name[i] as u32 <= 0x7f) ==> text
            == snaked(name, ascii_letters()).text,
{
}

/// What each category is called.
pub proof fn law_category_labels()
    ensures
        EventCategory::User.label_text() == "User"@,
        EventCategory::Bot.label_text() == "Bot"@,
        EventCategory::Tts.label_text() == "TTS"@,
        EventCategory::Llm.label_text() == "LLM"@,
        EventCategory::Stt.label_text() == "STT / transcripts"@,
        EventCategory::Metrics.label_text() == "Metrics"@,
        EventCategory::Other.label_text() == "Other"@,
{
}

/// A text that is there is taken as it is; the default stands in for a missing
/// one only.
pub proof fn law_default_text(value: Option<String>, otherwise: Seq<char>)
    ensures
        value is Some ==> text_or(value, otherwise) == value->0@,
        value is None ==> text_or(value, otherwise) == otherwise,
{
}

} // verus!
