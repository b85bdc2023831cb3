//! The JSON template of webhook payloads, held as its compact JSON text.

use vstd::prelude::*;

verus! {

/// What `serde_json::from_str::<serde_json::Value>` makes of `text`: the value it
/// reads, written back compactly by the value's `Display` (`Ok`), or the
/// `Display` of the error it reports (`Err`).
pub uninterp spec fn json_reading(text: Seq<char>) -> Result<Seq<char>, Seq<char>>;

/// Calls `serde_json::from_str::<serde_json::Value>` on `text` and hands back the
/// value written compactly, or the error's text. Nothing is claimed of either
/// but that it is what `json_reading` names for `text`.
#[verifier::external_body]
fn read_json(text: &str) -> (res: Result<String, String>)
    ensures
        json_reading(text@) == (match res {
            Ok(t) => Ok(t@),
            Err(e) => Err(e@),
        }),
{
    match serde_json::from_str::<serde_json::Value>(text) {
        Ok(value) => Ok(value.to_string()),
        Err(err) => Err(err.to_string()),
    }
}

/// The payload template used when none is given, written compactly with its
/// keys in order, as serde_json writes a value.
pub const DEFAULT_TEMPLATE: &'static str = "{\"event\":\"{{type}}\",\"path\":\"{{path}}\",\"timestamp\":\"{{timestamp}}\"}";

/// A JSON value, held as its compact text. The placeholders `{{path}}`,
/// `{{type}}` and `{{timestamp}}` may stand in its strings.
#[derive(Clone, Debug)]
pub struct JsonTemplate {
    text: String,
}

impl View for JsonTemplate {
    type V = Seq<char>;

    closed spec fn view(&self) -> Seq<char> {
        self.text@
    }
}

/// What reading `text` as a template gives: its compact text, or the message
/// `invalid JSON: ` followed by the reader's error.
pub open spec fn template_outcome(reading: Result<Seq<char>, Seq<char>>) -> Result<Seq<char>, Seq<char>> {
    match reading {
        Ok(t) => Ok(t),
        Err(e) => Err("invalid JSON: "@ + e),
    }
}

/// A result taken by its view.
pub open spec fn template_view(res: Result<JsonTemplate, String>) -> Result<Seq<char>, Seq<char>> {
    match res {
        Ok(t) => Ok(t@),
        Err(e) => Err(e@),
    }
}

impl JsonTemplate {
    /// The template used when none is given.
    pub fn default_template() -> (res: JsonTemplate)
        ensures
            res@ == DEFAULT_TEMPLATE@,
    {
        JsonTemplate { text: String::from_str(DEFAULT_TEMPLATE) }
    }

    /// The template's compact JSON text.
    pub fn as_str(&self) -> (res: &str)
        ensures
            res@ == self@,
    {
        self.text.as_str()
    }

    /// The template that a JSON reading stands for, or the message for a
    /// reading that failed.
    pub fn from_reading(reading: Result<String, String>) -> (res: Result<JsonTemplate, String>)
        ensures
            template_view(res) == template_outcome(match reading {
                Ok(t) => Ok(t@),
                Err(e) => Err(e@),
            }),
            reading is Ok <==> res is Ok,
            reading matches Ok(t) ==> res matches Ok(template) && template@ == t@,
            reading matches Err(e) ==> res matches Err(m) && m@ == "invalid JSON: "@ + e@,
    {
        match reading {
            Ok(text) => Ok(JsonTemplate { text }),
            Err(e) => {
                let mut m = String::from_str("invalid JSON: ");
                m.append(e.as_str());
                Err(m)
            },
        }
    }
}

/// Reading a template keeps the reader's text unchanged: a reading is
/// accepted exactly when the reader succeeded, its text is the reader's
/// compact text exactly, two accepted readings give the same template exactly
/// when the reader's texts agree, and a refusal is the reader's message after
/// `invalid JSON: `, telling different errors apart.
pub proof fn law_template_keeps_reading(r1: Result<Seq<char>, Seq<char>>, r2: Result<Seq<char>, Seq<char>>)
    ensures
        template_outcome(r1) is Ok <==> r1 is Ok,
        r1 matches Ok(t) ==> template_outcome(r1) == Ok::<Seq<char>, Seq<char>>(t),
        r1 matches Err(e) ==> template_outcome(r1) == Err::<Seq<char>, Seq<char>>("invalid JSON: "@ + e),
        (template_outcome(r1) == template_outcome(r2)) <==> (r1 == r2),
{
    if let (Err(e1), Err(e2)) = (r1, r2) {
        crate::text::lemma_cancel("invalid JSON: "@, e1, e2, Seq::<char>::empty());
        assert("invalid JSON: "@ + e1 =~= "invalid JSON: "@ + e1 + Seq::<char>::empty());
        assert("invalid JSON: "@ + e2 =~= "invalid JSON: "@ + e2 + Seq::<char>::empty());
    }
}

/// Reads a payload template given as JSON text.
pub fn parse_json(s: &str) -> (res: Result<JsonTemplate, String>)
    ensures
        template_view(res) == template_outcome(json_reading(s@)),
        json_reading(s@) is Ok <==> res is Ok,
        json_reading(s@) matches Ok(t) ==> res matches Ok(template) && template@ == t,
        json_reading(s@) matches Err(e) ==> res matches Err(m) && m@ == "invalid JSON: "@ + e,
{
    JsonTemplate::from_reading(read_json(s))
}

} // verus!
