use vstd::prelude::*;
use crate::mqtt::mqtt_utils::mqtt_error::MqttError;
use crate::mqtt::mqtt_utils::text::chars_of;
use crate::mqtt::mqtt_utils::text::decimal_text;
use crate::mqtt::mqtt_utils::text::digit_char;
use crate::mqtt::mqtt_utils::text::is_white_space;
use crate::mqtt::mqtt_utils::text::lemma_decimal_text_value;
use crate::mqtt::mqtt_utils::text::lemma_parse_u8_decimal;
use crate::mqtt::mqtt_utils::text::parse_u8;
use crate::mqtt::mqtt_utils::text::parse_u8_text;
use crate::mqtt::mqtt_utils::text::push_decimal;
use crate::mqtt::mqtt_utils::text::sep_pos;
use crate::mqtt::mqtt_utils::text::split_bounds;
use crate::mqtt::mqtt_utils::text::split_on;
use crate::mqtt::mqtt_utils::text::trim;
use crate::mqtt::mqtt_utils::text::trim_bounds;
use crate::mqtt::mqtt_utils::text::trim_end;
use crate::mqtt::mqtt_utils::text::trim_start;
use super::app_type::AppType;
use super::app_type::app_type_of_text;
use super::app_type::app_type_text;
use super::app_type::lemma_app_type_roundtrip;

verus! {

/// The content of the will message that an application sends, and that the
/// monitoring system eventually receives: which application, and its id.
#[derive(Debug, PartialEq, Eq, Clone, Copy, Structural)]
pub struct WillContent {
    pub app_type_identifier: AppType,
    pub id: Option<u8>,
}

/// The text a will content is written as: `app-1-id` with an id, `app-0-0`
/// without one.
pub open spec fn will_content_text(w: WillContent) -> Seq<char> {
    let (len, id): (nat, nat) = match w.id {
        Some(i) => (1, i as nat),
        None => (0, 0),
    };
    app_type_text(w.app_type_identifier) + seq!['-'] + decimal_text(len) + seq!['-'] + decimal_text(id)
}

/// What reading the text `s` as a will content gives: after trimming white
/// space it must split on `-` into three pieces: an application name, a
/// flag read as a `u8`, and, when the flag is 1, the id read as a `u8`.
pub open spec fn will_content_from_text(s: Seq<char>) -> Result<WillContent, MqttError> {
    let parts = split_on(trim(s), '-');
    if parts.len() != 3 {
        Err(MqttError::InvalidWillContent)
    } else {
        match app_type_of_text(parts[0]) {
            None => Err(MqttError::InvalidAppType),
            Some(app) => match parse_u8_text(parts[1]) {
                None => Err(MqttError::InvalidWillContent),
                Some(len) => if len == 1 {
                    match parse_u8_text(parts[2]) {
                        Some(id) => Ok(WillContent { app_type_identifier: app, id: Some(id) }),
                        None => Err(MqttError::InvalidWillContent),
                    }
                } else {
                    Ok(WillContent { app_type_identifier: app, id: None })
                },
            },
        }
    }
}

impl WillContent {
    /// The will content of the application kind `app_type_identifier` with
    /// the given id.
    pub fn new(app_type_identifier: AppType, id: Option<u8>) -> (r: Self)
        ensures
            r == (WillContent { app_type_identifier, id }),
    {
        Self { app_type_identifier, id }
    }

    /// The application kind.
    pub fn get_app_type_identifier(&self) -> (r: AppType)
        ensures
            r == self.app_type_identifier,
    {
        self.app_type_identifier
    }

    /// The id, if any.
    pub fn get_id(&self) -> (r: Option<u8>)
        ensures
            r == self.id,
    {
        self.id
    }

    /// The text this will content is written as.
    pub fn to_str(&self) -> (r: String)
        ensures
            r@ == will_content_text(*self),
    {
        proof {
            reveal_strlit("-");
        }
        let mut out = self.app_type_identifier.to_str();
        let len: u8 = if self.id.is_some() {
            1
        } else {
            0
        };
        out.append("-");
        push_decimal(&mut out, len);
        out.append("-");
        match self.id {
            Some(id) => push_decimal(&mut out, id),
            None => push_decimal(&mut out, 0),
        }
        out
    }

    /// Reads a will content from its text; refuses text that does not split
    /// into three pieces or whose numbers do not read (`InvalidWillContent`),
    /// and an unknown application name (`InvalidAppType`).
    pub fn will_content_from_string(string: &str) -> (r: Result<Self, MqttError>)
        ensures
            r == will_content_from_text(string@),
    {
        let chars = chars_of(string);
        let (start, end) = trim_bounds(&chars);
        let parts = split_bounds(&chars, start, end, '-');
        let ghost ps = split_on(trim(string@), '-');
        if parts.len() == 3 {
            let (a0, a1) = parts[0];
            let (l0, l1) = parts[1];
            let (i0, i1) = parts[2];
            let app_type_id_string = string.substring_char(a0, a1);
            assert(app_type_id_string@ == ps[0]);
            let app_type_identifier = match AppType::app_type_from_str(app_type_id_string) {
                Ok(t) => t,
                Err(e) => return Err(e),
            };
            assert(chars@.subrange(l0 as int, l1 as int) == ps[1]);
            assert(chars@.subrange(i0 as int, i1 as int) == ps[2]);
            if let Some(len) = parse_u8(&chars, l0, l1) {
                if len == 1 {
                    if let Some(id) = parse_u8(&chars, i0, i1) {
                        return Ok(Self { app_type_identifier, id: Some(id) });
                    }
                } else {
                    return Ok(Self { app_type_identifier, id: None });
                }
            }
        }
        Err(MqttError::InvalidWillContent)
    }
}

proof fn lemma_trim_of_ends(s: Seq<char>)
    requires
        s.len() > 0,
        !is_white_space(s[0]),
        !is_white_space(s.last()),
    ensures
        trim(s) == s,
{
}

proof fn lemma_split_three(a: Seq<char>, b: Seq<char>, c: Seq<char>)
    requires
        forall|i: int| 0 <= i < a.len() ==> #[trigger] a[i] != '-',
        forall|i: int| 0 <= i < b.len() ==> #[trigger] b[i] != '-',
        forall|i: int| 0 <= i < c.len() ==> #[trigger] c[i] != '-',
    ensures
        split_on(a + seq!['-'] + b + seq!['-'] + c, '-') == seq![a, b, c],
{
    let s = a + seq!['-'] + b + seq!['-'] + c;
    lemma_sep_pos_at(s, a.len() as int);
    assert(s.take(a.len() as int) =~= a);
    let s1 = s.skip((a.len() + 1) as int);
    assert(s1 =~= b + seq!['-'] + c);
    lemma_sep_pos_at(s1, b.len() as int);
    assert(s1.take(b.len() as int) =~= b);
    let s2 = s1.skip((b.len() + 1) as int);
    assert(s2 =~= c);
    lemma_sep_pos_at(s2, c.len() as int);
    assert(split_on(s2, '-') == seq![c]);
    assert(split_on(s1, '-') =~= seq![b, c]);
    assert(split_on(s, '-') =~= seq![a, b, c]);
}

proof fn lemma_sep_pos_at(s: Seq<char>, k: int)
    requires
        0 <= k <= s.len(),
        forall|j: int| 0 <= j < k ==> #[trigger] s[j] != '-',
        k == s.len() || s[k] == '-',
    ensures
        sep_pos(s, '-') == k,
    decreases k,
{
    if k > 0 {
        let t = s.drop_first();
        assert forall|j: int| 0 <= j < k - 1 implies #[trigger] t[j] != '-' by {
            assert(t[j] == s[j + 1]);
        }
        if k < s.len() {
            assert(t[k - 1] == s[k]);
        }
        lemma_sep_pos_at(t, k - 1);
    }
}

proof fn lemma_digits_no_dash(n: nat)
    ensures
        forall|i: int| 0 <= i < decimal_text(n).len() ==> #[trigger] decimal_text(n)[i] != '-',
        !is_white_space(decimal_text(n).last()),
{
    lemma_decimal_text_value(n);
    let t = decimal_text(n);
    assert forall|i: int| 0 <= i < t.len() implies #[trigger] t[i] != '-' by {
        assert(crate::mqtt::mqtt_utils::text::is_digit(t[i]));
    }
    assert(crate::mqtt::mqtt_utils::text::is_digit(t.last()));
}

/// Every will content is read back unchanged from its text.
pub proof fn lemma_will_content_roundtrip(w: WillContent)
    ensures
        will_content_from_text(will_content_text(w)) == Ok::<WillContent, MqttError>(w),
{
    reveal_strlit("camaras");
    reveal_strlit("dron");
    reveal_strlit("monitoreo");
    let a = app_type_text(w.app_type_identifier);
    let (len, id): (nat, nat) = match w.id {
        Some(i) => (1, i as nat),
        None => (0, 0),
    };
    let b = decimal_text(len);
    let c = decimal_text(id);
    lemma_digits_no_dash(len);
    lemma_digits_no_dash(id);
    assert forall|i: int| 0 <= i < a.len() implies #[trigger] a[i] != '-' by {}
    lemma_split_three(a, b, c);
    let s = a + seq!['-'] + b + seq!['-'] + c;
    assert(s == will_content_text(w));
    assert(s[0] == a[0]);
    assert(!is_white_space(a[0]));
    assert(s.last() == c.last());
    lemma_trim_of_ends(s);
    lemma_app_type_roundtrip(w.app_type_identifier);
    lemma_parse_u8_decimal(len as u8);
    lemma_parse_u8_decimal(id as u8);
}

} // verus!
