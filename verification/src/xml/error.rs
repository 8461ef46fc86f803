//! Failures of reading XML.

use vstd::prelude::*;

verus! {

/// Digit as a character.
pub open spec fn digit(d: int) -> char {
    (48 + d) as u8 as char
}

/// Decimal digits of a number.
pub open spec fn digits(n: nat) -> Seq<char>
    decreases n,
{
    if n < 10 {
        seq![digit(n as int)]
    } else {
        digits(n / 10).push(digit(n as int % 10))
    }
}

/// Number in decimal digits.
pub fn decimal(n: u64) -> (r: String)
    ensures
        r@ == digits(n as nat),
    decreases n,
{
    let mut r = if n < 10 {
        String::new()
    } else {
        decimal(n / 10)
    };
    let d: u8 = (n % 10) as u8;
    r.push((48u8 + d) as char);
    assert(r@ =~= digits(n as nat));
    r
}

/// What was being read.
#[derive(Debug, Clone, Copy, PartialEq, Eq, Structural)]
pub enum XmlPart {
    /// Queries of a data composition schema.
    Schema,
    /// Event handlers of a form.
    FormHandlers,
    /// References of a form.
    FormRefs,
}

/// A text that is no XML.
#[derive(Debug, Clone, PartialEq, Eq)]
pub struct XmlError {
    /// What was being read.
    pub part: XmlPart,
    /// Position of the parser when it gave up.
    pub position: u64,
    /// The parser's own words.
    pub detail: String,
}

/// Beginning of the message about a failure.
pub open spec fn failure_words(part: XmlPart) -> Seq<char> {
    match part {
        XmlPart::Schema => "DataCompositionSchema: ошибка парсинга на позиции "@,
        XmlPart::FormHandlers => "Form XML: ошибка парсинга на позиции "@,
        XmlPart::FormRefs => "Form XML: ошибка парсинга ссылок на позиции "@,
    }
}

impl XmlError {
    /// Message for the user.
    pub fn message(&self) -> (r: String)
        ensures
            r@ == failure_words(self.part) + digits(self.position as nat) + ": "@ + self.detail@,
    {
        let words = match self.part {
            XmlPart::Schema => "DataCompositionSchema: ошибка парсинга на позиции ",
            XmlPart::FormHandlers => "Form XML: ошибка парсинга на позиции ",
            XmlPart::FormRefs => "Form XML: ошибка парсинга ссылок на позиции ",
        };
        let mut r = words.to_string();
        r.append(decimal(self.position).as_str());
        r.append(": ");
        r.append(self.detail.as_str());
        r
    }
}

/// Number that decimal digits stand for.
pub open spec fn digits_value(s: Seq<char>) -> int
    decreases s.len(),
{
    if s.len() == 0 {
        0
    } else {
        digits_value(s.drop_last()) * 10 + (s.last() as u32 as int - 48)
    }
}

/// The digits of a number stand for that number, each is one of `0` to `9`, and none but
/// the only one is a leading zero.
pub proof fn law_digits(n: nat)
    ensures
        digits_value(digits(n)) == n,
        digits(n).len() > 0,
        forall|k: int| 0 <= k < digits(n).len() ==> '0' <= #[trigger] digits(n)[k] <= '9',
        digits(n).len() > 1 ==> digits(n)[0] != '0',
    decreases n,
{
    if n < 10 {
        assert(digits(n).drop_last() =~= Seq::empty());
        assert(digits_value(Seq::empty()) == 0);
    } else {
        law_digits(n / 10);
        let rest = digits(n / 10);
        assert(digits(n).drop_last() =~= rest);
        if rest.len() == 1 {
            assert(digits(n)[0] == rest[0]);
            if rest[0] == '0' {
                assert(rest.drop_last() =~= Seq::empty());
                assert(digits_value(rest) == digits_value(Seq::empty()) * 10);
                assert(n / 10 == 0);
            }
        }
    }
}

/// A message tells from its beginning what was being read.
pub proof fn law_messages_differ(a: XmlPart, b: XmlPart)
    requires
        a != b,
    ensures
        failure_words(a) != failure_words(b),
{
    reveal_strlit("DataCompositionSchema: ошибка парсинга на позиции ");
    reveal_strlit("Form XML: ошибка парсинга на позиции ");
    reveal_strlit("Form XML: ошибка парсинга ссылок на позиции ");
    assert(failure_words(XmlPart::Schema)[0] == 'D');
    assert(failure_words(XmlPart::FormHandlers)[0] == 'F');
    assert(failure_words(XmlPart::FormRefs)[0] == 'F');
    assert(failure_words(XmlPart::FormRefs).len() == failure_words(XmlPart::FormHandlers).len()
        + 7);
}

/// The beginning of a message names what was being read.
pub proof fn law_messages_name_parts()
    ensures
        "DataCompositionSchema: "@.is_prefix_of(failure_words(XmlPart::Schema)),
        "Form XML: "@.is_prefix_of(failure_words(XmlPart::FormHandlers)),
        "Form XML: ошибка парсинга ссылок "@.is_prefix_of(failure_words(XmlPart::FormRefs)),
{
    reveal_strlit("DataCompositionSchema: ошибка парсинга на позиции ");
    reveal_strlit("Form XML: ошибка парсинга на позиции ");
    reveal_strlit("Form XML: ошибка парсинга ссылок на позиции ");
    reveal_strlit("DataCompositionSchema: ");
    reveal_strlit("Form XML: ");
    reveal_strlit("Form XML: ошибка парсинга ссылок ");
    assert(failure_words(XmlPart::Schema).take(23) =~= "DataCompositionSchema: "@);
    assert(failure_words(XmlPart::FormHandlers).take(10) =~= "Form XML: "@);
    assert(failure_words(XmlPart::FormRefs).take(33) =~= "Form XML: ошибка парсинга ссылок "@);
}

} // verus!
