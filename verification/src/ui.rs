//! The decisions of the menu screens that do not depend on where things
//! are drawn: what a screen asks the host to do, how typing edits a
//! focused text field, and what the multiplayer screen does with its
//! fields and buttons.

use vstd::prelude::*;
use vstd::string::{StrSliceExecFns, StringExecFns};

verus! {

/// What the host should do in response to a frame's input; `Nothing`
/// most frames.
pub enum Action {
    Nothing,
    Quit,
    StartSingleplayer,
    GoToMultiplayer,
    GoToTexturePacks,
    Connect { host: String, username: String },
    RequestTexturePackSearch,
    SelectTexturePack { index: usize },
    BackToMenu,
}

/// `String::pop`: removes and returns the last character, if any.
pub assume_specification[ String::pop ](s: &mut String) -> (r: Option<char>)
    ensures
        old(s)@.len() == 0 ==> r is None && final(s)@ == old(s)@,
        old(s)@.len() > 0 ==> r == Some(old(s)@.last()) && final(s)@ == old(s)@.drop_last(),
;

/// Printable ASCII, the range the UI font renders.
pub open spec fn is_printable(c: char) -> bool {
    ' ' <= c <= '~'
}

/// The printable ASCII characters of `s`, in order.
pub open spec fn printable_only(s: Seq<char>) -> Seq<char>
    decreases s.len(),
{
    if s.len() == 0 {
        Seq::empty()
    } else if is_printable(s.last()) {
        printable_only(s.drop_last()).push(s.last())
    } else {
        printable_only(s.drop_last())
    }
}

/// A field's value after a frame of typing while focused: the typed
/// printable characters appended, then the last character removed on
/// backspace.
pub open spec fn typed_value(value: Seq<char>, typed: Seq<char>, backspace: bool) -> Seq<char> {
    let appended = value + printable_only(typed);
    if backspace && appended.len() > 0 {
        appended.drop_last()
    } else {
        appended
    }
}

/// Applies one frame of typing to a focused field's value: printable
/// ASCII characters are appended (others dropped), then backspace
/// deletes the last character.
pub fn apply_typing(value: &mut String, text_input: &str, backspace: bool)
    ensures
        final(value)@ == typed_value(old(value)@, text_input@, backspace),
{
    let n = text_input.unicode_len();
    let mut i: usize = 0;
    while i < n
        invariant
            n == text_input@.len(),
            i <= n,
            value@ == old(value)@ + printable_only(text_input@.take(i as int)),
        decreases n - i,
    {
        let ch = text_input.get_char(i);
        assert(text_input@.take(i + 1).drop_last() =~= text_input@.take(i as int));
        if ' ' <= ch && ch <= '~' {
            value.push(ch);
        }
        i = i + 1;
    }
    assert(text_input@.take(n as int) =~= text_input@);
    if backspace {
        value.pop();
    }
}

/// One frame of a text field: a click focuses it when inside it and
/// unfocuses it when outside; while focused, the typing is applied.
/// Returns whether Enter was pressed while focused.
pub fn text_field_update(
    value: &mut String,
    focused: &mut bool,
    clicked: bool,
    click_inside: bool,
    text_input: &str,
    backspace: bool,
    enter: bool,
) -> (confirmed: bool)
    ensures
        *final(focused) == if clicked {
            click_inside
        } else {
            *old(focused)
        },
        final(value)@ == if *final(focused) {
            typed_value(old(value)@, text_input@, backspace)
        } else {
            old(value)@
        },
        confirmed == (*final(focused) && enter),
{
    if clicked {
        *focused = click_inside;
    }
    if !*focused {
        return false;
    }
    apply_typing(value, text_input, backspace);
    enter
}

/// Keyboard and button input gathered between two frames (the pointer
/// position, which stays from frame to frame, is kept by the caller):
/// whether the left button went down, the characters typed, and whether
/// Backspace and Enter were pressed.
pub struct PendingInput {
    pub clicked: bool,
    pub text_input: String,
    pub backspace: bool,
    pub enter: bool,
}

impl PendingInput {
    /// Nothing gathered yet.
    pub fn new() -> (p: Self)
        ensures
            !p.clicked,
            p.text_input@ == Seq::<char>::empty(),
            !p.backspace,
            !p.enter,
    {
        PendingInput { clicked: false, text_input: String::new(), backspace: false, enter: false }
    }

    /// Hands out what was gathered since the last `take` and starts over
    /// with nothing.
    pub fn take(&mut self) -> (r: PendingInput)
        ensures
            r.clicked == old(self).clicked,
            r.text_input@ == old(self).text_input@,
            r.backspace == old(self).backspace,
            r.enter == old(self).enter,
            !final(self).clicked,
            final(self).text_input@ == Seq::<char>::empty(),
            !final(self).backspace,
            !final(self).enter,
    {
        let mut text = String::new();
        std::mem::swap(&mut text, &mut self.text_input);
        let r = PendingInput {
            clicked: self.clicked,
            text_input: text,
            backspace: self.backspace,
            enter: self.enter,
        };
        self.clicked = false;
        self.backspace = false;
        self.enter = false;
        r
    }
}

/// Whether `c` is whitespace to `char::is_whitespace`: the characters
/// with the Unicode `White_Space` property.
pub open spec fn is_white_space(c: char) -> bool {
    let u = c as u32;
    ||| u == 0x20
    ||| 0x9 <= u <= 0xD
    ||| u == 0x85
    ||| u == 0xA0
    ||| u == 0x1680
    ||| 0x2000 <= u <= 0x200A
    ||| u == 0x2028
    ||| u == 0x2029
    ||| u == 0x202F
    ||| u == 0x205F
    ||| u == 0x3000
}

/// `s` without its leading whitespace.
pub open spec fn trim_start_chars(s: Seq<char>) -> Seq<char>
    decreases s.len(),
{
    if s.len() > 0 && is_white_space(s[0]) {
        trim_start_chars(s.drop_first())
    } else {
        s
    }
}

/// `s` without its trailing whitespace.
pub open spec fn trim_end_chars(s: Seq<char>) -> Seq<char>
    decreases s.len(),
{
    if s.len() > 0 && is_white_space(s.last()) {
        trim_end_chars(s.drop_last())
    } else {
        s
    }
}

/// `s` without leading and trailing whitespace, as `str::trim` gives it.
pub open spec fn trimmed(s: Seq<char>) -> Seq<char> {
    trim_end_chars(trim_start_chars(s))
}

proof fn lemma_trim_start_skip(s: Seq<char>, i: int)
    requires
        0 <= i <= s.len(),
        forall|k: int| 0 <= k < i ==> is_white_space(#[trigger] s[k]),
    ensures
        trim_start_chars(s) == trim_start_chars(s.skip(i)),
    decreases i,
{
    if i == 0 {
        assert(s.skip(0) =~= s);
    } else {
        assert(is_white_space(s[0]));
        let t = s.drop_first();
        assert forall|k: int| 0 <= k < i - 1 implies is_white_space(#[trigger] t[k]) by {
            assert(t[k] == s[k + 1]);
        }
        lemma_trim_start_skip(t, i - 1);
        assert(t.skip(i - 1) =~= s.skip(i));
    }
}

proof fn lemma_trim_end_take(s: Seq<char>, j: int)
    requires
        0 <= j <= s.len(),
        forall|k: int| j <= k < s.len() ==> is_white_space(#[trigger] s[k]),
    ensures
        trim_end_chars(s) == trim_end_chars(s.take(j)),
    decreases s.len() - j,
{
    if j == s.len() {
        assert(s.take(j) =~= s);
    } else {
        assert(is_white_space(s[s.len() - 1]));
        let t = s.drop_last();
        assert forall|k: int| j <= k < t.len() implies is_white_space(#[trigger] t[k]) by {
            assert(t[k] == s[k]);
        }
        lemma_trim_end_take(t, j);
        assert(t.take(j) =~= s.take(j));
    }
}

fn is_whitespace_char(c: char) -> (b: bool)
    ensures
        b == is_white_space(c),
{
    let u = c as u32;
    u == 0x20 || (0x9 <= u && u <= 0xD) || u == 0x85 || u == 0xA0 || u == 0x1680 || (0x2000 <= u
        && u <= 0x200A) || u == 0x2028 || u == 0x2029 || u == 0x202F || u == 0x205F || u == 0x3000
}

/// `s` with leading and trailing whitespace removed (what `str::trim`
/// does).
fn trim(s: &str) -> (r: String)
    ensures
        r@ == trimmed(s@),
{
    let mut chars: Vec<char> = Vec::new();
    for c in it: s.chars()
        invariant
            it.seq() == s@,
            chars@ == s@.take(it.index()),
    {
        chars.push(c);
        assert(chars@ =~= s@.take(it.index() + 1));
    }
    assert(chars@ =~= s@);
    let ghost cs = chars@;
    let mut start: usize = 0;
    while start < chars.len() && is_whitespace_char(chars[start])
        invariant
            chars@ == cs,
            start <= cs.len(),
            forall|k: int| 0 <= k < start ==> is_white_space(#[trigger] cs[k]),
        decreases cs.len() - start,
    {
        start = start + 1;
    }
    let mut end: usize = chars.len();
    while end > start && is_whitespace_char(chars[end - 1])
        invariant
            chars@ == cs,
            start <= end <= cs.len(),
            forall|k: int| end <= k < cs.len() ==> is_white_space(#[trigger] cs[k]),
        decreases end,
    {
        end = end - 1;
    }
    let mut r = String::new();
    let mut i: usize = start;
    while i < end
        invariant
            chars@ == cs,
            start <= i <= end <= cs.len(),
            r@ == cs.subrange(start as int, i as int),
        decreases end - i,
    {
        r.push(chars[i]);
        i = i + 1;
        assert(r@ =~= cs.subrange(start as int, i as int));
    }
    proof {
        lemma_trim_start_skip(cs, start as int);
        let t = cs.skip(start as int);
        assert(trim_start_chars(t) == t) by {
            if t.len() > 0 {
                assert(t[0] == cs[start as int]);
            }
        }
        let j = end - start;
        assert forall|k: int| j <= k < t.len() implies is_white_space(#[trigger] t[k]) by {
            assert(t[k] == cs[k + start]);
        }
        lemma_trim_end_take(t, j);
        let u = t.take(j);
        assert(u =~= cs.subrange(start as int, end as int));
        assert(trim_end_chars(u) == u) by {
            if u.len() > 0 {
                assert(u.last() == cs[end - 1]);
            }
        }
    }
    r
}

/// The username used when the field is left empty.
pub open spec fn default_username() -> Seq<char> {
    "Cobble"@
}

/// What the multiplayer screen does this frame, given its fields'
/// trimmed values: back wins; otherwise a non-empty host connects when
/// the (enabled) Connect button was hit or Enter was pressed in either
/// field, with "Cobble" as the username when none was given.
pub fn multiplayer_decision(
    host: String,
    username: String,
    back_clicked: bool,
    connect_hit: bool,
    host_confirmed: bool,
    username_confirmed: bool,
) -> (a: Action)
    ensures
        back_clicked ==> a is BackToMenu,
        !back_clicked && host@.len() > 0 && (connect_hit || host_confirmed || username_confirmed) ==> (a matches Action::Connect { host: h, username: u } && h@ == host@ && u@ == if username@.len() == 0 {
            default_username()
        } else {
            username@
        }),
        !back_clicked && !(host@.len() > 0 && (connect_hit || host_confirmed || username_confirmed)) ==> a is Nothing,
{
    if back_clicked {
        return Action::BackToMenu;
    }
    if host.as_str().unicode_len() > 0 && (connect_hit || host_confirmed || username_confirmed) {
        let username = if username.as_str().unicode_len() == 0 {
            String::from_str("Cobble")
        } else {
            username
        };
        return Action::Connect { host, username };
    }
    Action::Nothing
}

/// What the multiplayer screen does this frame, from its fields' raw
/// values: both are trimmed, the Connect button only counts when the
/// trimmed host is not empty (it is disabled otherwise), and then as
/// `multiplayer_decision`.
pub fn multiplayer_update(
    host_value: &str,
    username_value: &str,
    back_clicked: bool,
    connect_clicked_in_rect: bool,
    host_confirmed: bool,
    username_confirmed: bool,
) -> (a: Action)
    ensures
        back_clicked ==> a is BackToMenu,
        !back_clicked && trimmed(host_value@).len() > 0 && (connect_clicked_in_rect || host_confirmed
            || username_confirmed) ==> (a matches Action::Connect { host: h, username: u } && h@
            == trimmed(host_value@) && u@ == if trimmed(username_value@).len() == 0 {
            default_username()
        } else {
            trimmed(username_value@)
        }),
        !back_clicked && !(trimmed(host_value@).len() > 0 && (connect_clicked_in_rect || host_confirmed
            || username_confirmed)) ==> a is Nothing,
{
    let host = trim(host_value);
    let username = trim(username_value);
    let connect_enabled = host.as_str().unicode_len() > 0;
    multiplayer_decision(
        host,
        username,
        back_clicked,
        connect_enabled && connect_clicked_in_rect,
        host_confirmed,
        username_confirmed,
    )
}

/// The main menu's buttons, top to bottom, and what each asks for.
pub open spec fn main_menu_action_spec(i: int) -> Action {
    if i == 0 {
        Action::StartSingleplayer
    } else if i == 1 {
        Action::GoToMultiplayer
    } else if i == 2 {
        Action::GoToTexturePacks
    } else {
        Action::Quit
    }
}

/// What the main menu does this frame, given which of its buttons
/// (Singleplayer, Multiplayer, Texture Packs, Quit, top to bottom) the
/// click hit: the first one hit, checked top to bottom.
pub fn main_menu_action(hits: [bool; 4]) -> (a: Action)
    ensures
        forall|i: int|
            0 <= i < 4 && hits@[i] && (forall|j: int| 0 <= j < i ==> !hits@[j]) ==> a
                == main_menu_action_spec(i),
        (forall|j: int| 0 <= j < 4 ==> !hits@[j]) ==> a is Nothing,
{
    if hits[0] {
        Action::StartSingleplayer
    } else if hits[1] {
        Action::GoToMultiplayer
    } else if hits[2] {
        Action::GoToTexturePacks
    } else if hits[3] {
        Action::Quit
    } else {
        Action::Nothing
    }
}

/// What the texture pack picker does this frame: back wins; otherwise
/// the first search result hit (top to bottom) is selected by index.
pub fn picker_action(back_hit: bool, result_hits: &[bool]) -> (a: Action)
    ensures
        back_hit ==> a is BackToMenu,
        !back_hit ==> forall|i: int|
            0 <= i < result_hits@.len() && result_hits@[i] && (forall|j: int|
                0 <= j < i ==> !result_hits@[j]) ==> a == (Action::SelectTexturePack { index: i as usize }),
        !back_hit && (forall|j: int| 0 <= j < result_hits@.len() ==> !result_hits@[j]) ==> a is Nothing,
{
    if back_hit {
        return Action::BackToMenu;
    }
    let mut i: usize = 0;
    while i < result_hits.len()
        invariant
            !back_hit,
            i <= result_hits@.len(),
            forall|j: int| 0 <= j < i ==> !result_hits@[j],
        decreases result_hits.len() - i,
    {
        if result_hits[i] {
            return Action::SelectTexturePack { index: i };
        }
        i = i + 1;
    }
    Action::Nothing
}

} // verus!
