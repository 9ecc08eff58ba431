//! Deterministic firmware safety/session model driven by the shared v0 vectors.
//!
//! The model keeps commanded PTT, sensed `PTT OUT`, inhibit, CAT/profile state,
//! USB/audio health, BLE health, and protocol-session health as separate values,
//! and runs on a virtual monotonic clock.
use vstd::prelude::*;

use crate::json::{member_views_of, opt_number, opt_text, Json, JsonView};
use crate::text::{all_ascii, ascii_string, ascii_view};

pub mod machine;

pub use machine::Model;

verus! {

/// Maximum accepted v0 PTT lease.
pub const T_LEASE_MAX_MS: u64 = 500;

/// Maximum release interval after expiry or a detected safety event.
pub const T_RELEASE_MAX_MS: u64 = 100;

/// Non-extendable continuous-authority cap.
pub const T_CONTINUOUS_MAX_MS: u64 = 60_000;

/// Continuously receive-safe interval required after the continuous cap.
pub const T_REARM_MIN_MS: u64 = 1_000;

/// Minimum retained operations in a v0 session.
pub const MAX_SESSION_OPERATIONS: u64 = 512;

/// The simulated device identity.
pub const DEVICE_ID: &'static str = "00112233445566778899aabbccddeeff";

/// The device's command frame limit.
pub const DEVICE_FRAME_LIMIT: u64 = 185;

/// The device's logical message limit.
pub const DEVICE_MAX_MESSAGE_BYTES: u64 = 1024;

// ---------------------------------------------------------------------------
// Text helpers
// ---------------------------------------------------------------------------

/// Text from a literal.
pub fn txt(text: &str) -> (owned: String)
    ensures
        owned@ == text@,
{
    String::from_str(text)
}

/// Whether a string equals a literal.
pub fn eq_text(text: &String, literal: &str) -> (equal: bool)
    ensures
        equal == (text@ == literal@),
{
    *text == String::from_str(literal)
}

/// The view of an optional string.
pub open spec fn ov(text: Option<String>) -> Option<Seq<char>> {
    match text {
        Some(t) => Some(t@),
        None => None,
    }
}

/// Whether a character is a lowercase hexadecimal digit.
pub open spec fn is_hex_char(c: char) -> bool {
    ('0' <= c && c <= '9') || ('a' <= c && c <= 'f')
}

/// A 128-bit identity: exactly 32 lowercase hexadecimal digits.
pub open spec fn spec_is_hex_id(value: Seq<char>) -> bool {
    value.len() == 32 && forall|i: int| 0 <= i < 32 ==> is_hex_char(#[trigger] value[i])
}

/// Whether a value is a 128-bit identity.
pub fn is_hex_id(value: &str) -> (valid: bool)
    ensures
        valid == spec_is_hex_id(value@),
{
    let len = value.unicode_len();
    if len != 32 {
        return false;
    }
    let mut index: usize = 0;
    while index < 32
        invariant
            len == value@.len(),
            len == 32,
            0 <= index <= 32,
            forall|i: int| 0 <= i < index ==> is_hex_char(#[trigger] value@[i]),
        decreases 32 - index,
    {
        let c = value.get_char(index);
        if !(('0' <= c && c <= '9') || ('a' <= c && c <= 'f')) {
            return false;
        }
        index = index + 1;
    }
    true
}

/// Whether a command name is keying-capable.
pub open spec fn spec_is_keying_capable(value: Seq<char>) -> bool {
    value == "TX"@ || value == "RX"@ || value == "SWT"@ || value == "SWH"@ || value == "KY"@
        || value == "tune"@ || value == "xmit"@ || value == "keyer"@
}

/// Whether a command name is keying-capable.
pub fn is_keying_capable(value: &String) -> (keying: bool)
    ensures
        keying == spec_is_keying_capable(value@),
{
    eq_text(value, "TX") || eq_text(value, "RX") || eq_text(value, "SWT") || eq_text(value, "SWH") || eq_text(value, "KY")
        || eq_text(value, "tune") || eq_text(value, "xmit") || eq_text(value, "keyer")
}

/// Whether a command name is a keying-capable or prohibited radio write.
pub open spec fn spec_is_prohibited_radio_operation(value: Seq<char>) -> bool {
    spec_is_keying_capable(value) || value == "power_write"@ || value == "VOX_write"@ || value
        == "mode_write"@ || value == "menu_write"@ || value == "baud_write"@
}

/// Whether a command name is a keying-capable or prohibited radio write.
pub fn is_prohibited_radio_operation(value: &String) -> (prohibited: bool)
    ensures
        prohibited == spec_is_prohibited_radio_operation(value@),
{
    is_keying_capable(value) || eq_text(value, "power_write") || eq_text(value, "VOX_write") || eq_text(
        value,
        "mode_write",
    ) || eq_text(value, "menu_write") || eq_text(value, "baud_write")
}

/// Whether `text` begins with `prefix`.
pub open spec fn seq_starts_with(text: Seq<char>, prefix: Seq<char>) -> bool {
    prefix.len() <= text.len() && text.subrange(0, prefix.len() as int) == prefix
}

/// Whether a string begins with a literal prefix.
pub fn starts_with(text: &String, prefix: &str) -> (starts: bool)
    ensures
        starts == seq_starts_with(text@, prefix@),
{
    let s = text.as_str();
    let n = prefix.unicode_len();
    let len = s.unicode_len();
    if n > len {
        return false;
    }
    let mut index: usize = 0;
    while index < n
        invariant
            n == prefix@.len(),
            len == s@.len(),
            s@ == text@,
            n <= len,
            0 <= index <= n,
            forall|i: int| 0 <= i < index ==> #[trigger] s@[i] == prefix@[i],
        decreases n - index,
    {
        if s.get_char(index) != prefix.get_char(index) {
            return false;
        }
        index = index + 1;
    }
    assert(text@.subrange(0, n as int) =~= prefix@);
    true
}

/// Lowercase hexadecimal digits of `value`, zero-padded to `width`.
pub open spec fn hex_digits(value: nat, width: nat) -> Seq<u8>
    decreases width,
{
    if width == 0 {
        Seq::empty()
    } else {
        let d = value % 16;
        hex_digits(value / 16, (width - 1) as nat).push(
            if d < 10 { (0x30 + d) as u8 } else { (0x57 + d) as u8 },
        )
    }
}

/// The 32-digit identity spelling of a counter value.
pub open spec fn hex_id_text(value: nat) -> Seq<char> {
    ascii_view(hex_digits(value, 32))
}

proof fn lemma_hex_digits_ascii(value: nat, width: nat)
    ensures
        hex_digits(value, width).len() == width,
        all_ascii(hex_digits(value, width)),
    decreases width,
{
    if width > 0 {
        lemma_hex_digits_ascii(value / 16, (width - 1) as nat);
        let shorter = hex_digits(value / 16, (width - 1) as nat);
        let digits = hex_digits(value, width);
        assert forall|i: int| 0 <= i < digits.len() implies #[trigger] digits[i] < 0x80 by {
            if i < width - 1 {
                assert(digits[i] == shorter[i]);
            }
        }
    }
}

fn push_hex_digits(value: u64, width: usize, out: &mut Vec<u8>)
    ensures
        final(out)@ == old(out)@ + hex_digits(value as nat, width as nat),
    decreases width,
{
    if width == 0 {
        assert(old(out)@ + Seq::<u8>::empty() =~= old(out)@);
        return;
    }
    push_hex_digits(value / 16, width - 1, out);
    let d = (value % 16) as u8;
    if d < 10 {
        out.push(0x30 + d);
    } else {
        out.push(0x57 + d);
    }
    assert(final(out)@ =~= old(out)@ + hex_digits(value as nat, width as nat));
}

/// The 32-digit lowercase hexadecimal identity spelling of a counter value.
pub fn hex_id(value: u64) -> (text: String)
    ensures
        text@ == hex_id_text(value as nat),
{
    let mut digits: Vec<u8> = Vec::new();
    push_hex_digits(value, 32, &mut digits);
    proof {
        lemma_hex_digits_ascii(value as nat, 32);
        assert(digits@ =~= hex_digits(value as nat, 32));
    }
    ascii_string(digits.as_slice())
}


/// Saturating addition.
pub open spec fn sat_add(a: u64, b: u64) -> u64 {
    if a + b > u64::MAX {
        u64::MAX
    } else {
        (a + b) as u64
    }
}

/// Saturating addition.
pub fn saturating_add(a: u64, b: u64) -> (sum: u64)
    ensures
        sum == sat_add(a, b),
{
    if a > u64::MAX - b {
        u64::MAX
    } else {
        a + b
    }
}

// ---------------------------------------------------------------------------
// Response objects
// ---------------------------------------------------------------------------

/// An object from members.
pub open spec fn jobj(members: Seq<(Seq<char>, JsonView)>) -> JsonView {
    JsonView::Object(members)
}

/// A text value.
pub open spec fn jtext(text: Seq<char>) -> JsonView {
    JsonView::Text(text)
}

/// An optional text value, `null` when absent.
pub open spec fn jtext_or_null(text: Option<Seq<char>>) -> JsonView {
    match text {
        Some(t) => JsonView::Text(t),
        None => JsonView::Null,
    }
}

/// An optional number, `null` when absent.
pub open spec fn jnumber_or_null(value: Option<u64>) -> JsonView {
    match value {
        Some(n) => JsonView::Number(n),
        None => JsonView::Null,
    }
}

/// A successful command outcome.
pub open spec fn ok_json(result: JsonView) -> JsonView {
    jobj(seq![("ok"@, JsonView::Bool(true)), ("result"@, result)])
}

/// A denied command outcome with its safety effect.
pub open spec fn error_json(code: Seq<char>, effect: Seq<char>, radio_io_attempted: bool) -> JsonView {
    jobj(
        seq![
            ("ok"@, JsonView::Bool(false)),
            (
                "error"@,
                jobj(
                    seq![
                        ("code"@, jtext(code)),
                        ("safety_effect"@, jtext(effect)),
                        ("radio_io_attempted"@, JsonView::Bool(radio_io_attempted)),
                    ],
                ),
            ),
        ],
    )
}

/// A named member.
pub fn member(key: &str, value: Json) -> (pair: (String, Json))
    ensures
        pair.0@ == key@,
        pair.1.spec_view() == value.spec_view(),
{
    (String::from_str(key), value)
}

/// An object from members.
pub fn object(members: Vec<(String, Json)>) -> (value: Json)
    ensures
        value.spec_view() == jobj(member_views_of(members@)),
{
    Json::Object(members)
}

proof fn lemma_members2(a: (String, Json), b: (String, Json))
    ensures
        member_views_of(seq![a, b]) == seq![(a.0@, a.1.spec_view()), (b.0@, b.1.spec_view())],
{
    lemma_members_push(Seq::empty(), a);
    lemma_members_push(seq![a], b);
    assert(member_views_of(Seq::<(String, Json)>::empty()) =~= Seq::empty());
    assert(Seq::<(String, Json)>::empty().push(a) =~= seq![a]);
    assert(seq![a].push(b) =~= seq![a, b]);
}

proof fn lemma_members3(a: (String, Json), b: (String, Json), c: (String, Json))
    ensures
        member_views_of(seq![a, b, c]) == seq![
            (a.0@, a.1.spec_view()),
            (b.0@, b.1.spec_view()),
            (c.0@, c.1.spec_view()),
        ],
{
    lemma_members2(a, b);
    lemma_members_push(seq![a, b], c);
    assert(seq![a, b].push(c) =~= seq![a, b, c]);
}

/// The views of members, one at a time.
pub proof fn lemma_members_push(members: Seq<(String, Json)>, last: (String, Json))
    ensures
        member_views_of(members.push(last)) == member_views_of(members).push(
            (last.0@, last.1.spec_view()),
        ),
{
    assert(members.push(last).drop_last() =~= members);
}

/// An empty member list.
pub fn no_members() -> (members: Vec<(String, Json)>)
    ensures
        member_views_of(members@) == Seq::<(Seq<char>, JsonView)>::empty(),
{
    let members: Vec<(String, Json)> = Vec::new();
    assert(member_views_of(members@) =~= Seq::<(Seq<char>, JsonView)>::empty());
    members
}

/// Append a named member to a member list.
pub fn push_member(members: &mut Vec<(String, Json)>, key: &str, value: Json)
    ensures
        member_views_of(final(members)@) == member_views_of(old(members)@).push(
            (key@, value.spec_view()),
        ),
{
    let pair = (String::from_str(key), value);
    proof {
        lemma_members_push(members@, pair);
    }
    members.push(pair);
}

/// A successful command outcome.
pub fn ok(result: Json) -> (value: Json)
    ensures
        value.spec_view() == ok_json(result.spec_view()),
{
    let a = member("ok", Json::Bool(true));
    let b = member("result", result);
    proof {
        lemma_members2(a, b);
    }
    object(vec![a, b])
}

/// A denied command outcome with its safety effect.
pub fn error(code: &str, effect: &str, radio_io_attempted: bool) -> (value: Json)
    ensures
        value.spec_view() == error_json(code@, effect@, radio_io_attempted),
{
    let c = member("code", Json::text(code));
    let e = member("safety_effect", Json::text(effect));
    let r = member("radio_io_attempted", Json::Bool(radio_io_attempted));
    proof {
        lemma_members3(c, e, r);
    }
    let detail = object(vec![c, e, r]);
    let a = member("ok", Json::Bool(false));
    let b = member("error", detail);
    proof {
        lemma_members2(a, b);
    }
    object(vec![a, b])
}

// ---------------------------------------------------------------------------
// State
// ---------------------------------------------------------------------------

/// Fixed identities supplied by the shared vector fixture.
#[derive(Clone, Debug)]
pub struct VectorIds {
    boot: String,
    boot2: String,
    session: String,
    session2: String,
}

/// The identities of a [`VectorIds`].
pub struct IdsView {
    pub boot: Seq<char>,
    pub boot2: Seq<char>,
    pub session: Seq<char>,
    pub session2: Seq<char>,
}

impl View for VectorIds {
    type V = IdsView;

    closed spec fn view(&self) -> IdsView {
        IdsView {
            boot: self.boot@,
            boot2: self.boot2@,
            session: self.session@,
            session2: self.session2@,
        }
    }
}

/// The string member `key` of an object, or the diagnostic naming it.
pub open spec fn string_field_result(object: JsonView, key: Seq<char>) -> Result<Seq<char>, Seq<char>> {
    match opt_text(object.field(key)) {
        Some(t) => Ok(t),
        None => Err(key + " must be a string"@),
    }
}

/// The unsigned member `key` of an object, or the diagnostic naming it.
pub open spec fn uint_field_result(object: JsonView, key: Seq<char>) -> Result<u64, Seq<char>> {
    match opt_number(object.field(key)) {
        Some(n) => Ok(n),
        None => Err(key + " must be an unsigned integer"@),
    }
}

/// The string member `key` of an object.
pub fn string_field(object: &Json, key: &str) -> (result: Result<String, String>)
    ensures
        match result {
            Ok(t) => string_field_result(object.spec_view(), key@) == Ok::<Seq<char>, Seq<char>>(t@),
            Err(e) => string_field_result(object.spec_view(), key@) == Err::<Seq<char>, Seq<char>>(e@),
        },
{
    match object.get(key) {
        Some(value) => match value.as_text() {
            Some(t) => Ok(t.clone()),
            None => Err(String::from_str(key).concat(" must be a string")),
        },
        None => Err(String::from_str(key).concat(" must be a string")),
    }
}

/// The unsigned member `key` of an object.
pub fn uint_field(object: &Json, key: &str) -> (result: Result<u64, String>)
    ensures
        match result {
            Ok(n) => uint_field_result(object.spec_view(), key@) == Ok::<u64, Seq<char>>(n),
            Err(e) => uint_field_result(object.spec_view(), key@) == Err::<u64, Seq<char>>(e@),
        },
{
    match object.get(key) {
        Some(value) => match value.as_number() {
            Some(n) => Ok(n),
            None => Err(String::from_str(key).concat(" must be an unsigned integer")),
        },
        None => Err(String::from_str(key).concat(" must be an unsigned integer")),
    }
}

/// The `ids` of a vector fixture: four string members.
pub open spec fn ids_result(value: JsonView) -> Result<IdsView, Seq<char>> {
    if !(value is Object) {
        Err("ids must be an object"@)
    } else {
        match string_field_result(value, "boot"@) {
            Err(e) => Err(e),
            Ok(boot) => match string_field_result(value, "boot2"@) {
                Err(e) => Err(e),
                Ok(boot2) => match string_field_result(value, "session"@) {
                    Err(e) => Err(e),
                    Ok(session) => match string_field_result(value, "session2"@) {
                        Err(e) => Err(e),
                        Ok(session2) => Ok(IdsView { boot, boot2, session, session2 }),
                    },
                },
            },
        }
    }
}

impl VectorIds {
    /// The boot identity of the first boot.
    pub fn boot(&self) -> (id: &String)
        ensures
            id@ == self@.boot,
    {
        &self.boot
    }

    /// The boot identity after a reset.
    pub fn boot2(&self) -> (id: &String)
        ensures
            id@ == self@.boot2,
    {
        &self.boot2
    }

    /// The initial session identity.
    pub fn session(&self) -> (id: &String)
        ensures
            id@ == self@.session,
    {
        &self.session
    }

    /// The replacement session identity.
    pub fn session2(&self) -> (id: &String)
        ensures
            id@ == self@.session2,
    {
        &self.session2
    }
}

impl VectorIds {
    /// Decode the `ids` object of the shared vector fixture.
    pub fn from_value(value: &Json) -> (result: Result<Self, String>)
        ensures
            match result {
                Ok(ids) => ids_result(value.spec_view()) == Ok::<IdsView, Seq<char>>(ids@),
                Err(e) => ids_result(value.spec_view()) == Err::<IdsView, Seq<char>>(e@),
            },
    {
        match value {
            Json::Object(_) => {},
            _ => {
                return Err(String::from_str("ids must be an object"));
            },
        }
        let boot = string_field(value, "boot")?;
        let boot2 = string_field(value, "boot2")?;
        let session = string_field(value, "session")?;
        let session2 = string_field(value, "session2")?;
        Ok(VectorIds { boot, boot2, session, session2 })
    }
}

} // verus!
