//! Reading the JSON evidence stored on an edge back into a short label.

use vstd::prelude::*;

use crate::derived::opt_view;
use crate::text::{concat2, decimal, decimal_of};

verus! {

/// The fields of an edge's evidence that labels are made from: the callee
/// and line of a call, the path of an import, the target of a test guess
/// and the trait of an impl block. Each is present when the evidence holds
/// it with that JSON type (a string, or an integer for the line).
pub struct EvidenceFields {
    pub callee: Option<String>,
    pub line: Option<i64>,
    pub import: Option<String>,
    pub target_hint: Option<String>,
    pub trait_name: Option<String>,
}

/// Evidence fields as plain values.
pub type EvidenceView = (Option<Seq<char>>, Option<i64>, Option<Seq<char>>, Option<Seq<char>>, Option<Seq<char>>);

/// The view of evidence fields.
pub open spec fn evidence_view(e: EvidenceFields) -> EvidenceView {
    (opt_view(e.callee), e.line, opt_view(e.import), opt_view(e.target_hint), opt_view(e.trait_name))
}

/// The view of optional evidence fields.
pub open spec fn opt_evidence_view(e: Option<EvidenceFields>) -> Option<EvidenceView> {
    match e {
        Some(x) => Some(evidence_view(x)),
        None => None,
    }
}

/// The fields `serde_json` reads from evidence text: none when the text is
/// not JSON.
pub uninterp spec fn json_evidence(raw: Seq<char>) -> Option<EvidenceView>;

/// Calls `serde_json::from_str` for a `serde_json::Value` on the evidence
/// text and reads its "callee", "import", "target_hint" and "trait" string
/// fields and its "line" integer field; the result is named
/// `json_evidence(raw)`.
#[verifier::external_body]
fn parse_evidence(raw: &str) -> (r: Option<EvidenceFields>)
    ensures
        opt_evidence_view(r) == json_evidence(raw@),
{
    match serde_json::from_str::<serde_json::Value>(raw) {
        Ok(v) => Some(EvidenceFields {
            callee: v.get("callee").and_then(serde_json::Value::as_str).map(String::from),
            line: v.get("line").and_then(serde_json::Value::as_i64),
            import: v.get("import").and_then(serde_json::Value::as_str).map(String::from),
            target_hint: v.get("target_hint").and_then(serde_json::Value::as_str).map(String::from),
            trait_name: v.get("trait").and_then(serde_json::Value::as_str).map(String::from),
        }),
        Err(_) => None,
    }
}

/// A readable form of evidence: "callee=…, line=…" for a call, "import=…",
/// "target_hint=…" or "trait=…"; the raw text when none of these is there.
pub open spec fn pretty_evidence_spec(raw: Seq<char>, ev: Option<EvidenceView>) -> Seq<char> {
    match ev {
        Some(e) => if e.0 is Some && e.1 is Some {
            "callee="@ + e.0->0 + ", line="@ + decimal(e.1->0 as int)
        } else if e.2 is Some {
            "import="@ + e.2->0
        } else if e.3 is Some {
            "target_hint="@ + e.3->0
        } else if e.4 is Some {
            "trait="@ + e.4->0
        } else {
            raw
        },
        None => raw,
    }
}

/// A readable form of evidence, given what was read from it.
pub fn pretty_evidence_of(raw: String, ev: &Option<EvidenceFields>) -> (r: String)
    ensures
        r@ == pretty_evidence_spec(raw@, opt_evidence_view(*ev)),
{
    match ev {
        Some(e) => {
            match (&e.callee, e.line) {
                (Some(c), Some(l)) => {
                    let a = concat2("callee=", c.as_str());
                    let b = concat2(a.as_str(), ", line=");
                    return concat2(b.as_str(), decimal_of(l).as_str());
                },
                _ => {},
            }
            match &e.import {
                Some(i) => {
                    return concat2("import=", i.as_str());
                },
                None => {},
            }
            match &e.target_hint {
                Some(t) => {
                    return concat2("target_hint=", t.as_str());
                },
                None => {},
            }
            match &e.trait_name {
                Some(t) => concat2("trait=", t.as_str()),
                None => raw,
            }
        },
        None => raw,
    }
}

/// A readable form of an edge's evidence text.
pub fn pretty_evidence(raw: String) -> (r: String)
    ensures
        r@ == pretty_evidence_spec(raw@, json_evidence(raw@)),
{
    let ev = parse_evidence(raw.as_str());
    pretty_evidence_of(raw, &ev)
}

/// The label of a neighbor row: its own label, else the first of callee,
/// import, target and trait its evidence names, else "unknown".
pub open spec fn row_label_spec(label: Option<Seq<char>>, ev: Option<EvidenceView>) -> Seq<char> {
    match label {
        Some(l) => l,
        None => match ev {
            Some(e) => if e.0 is Some {
                e.0->0
            } else if e.2 is Some {
                e.2->0
            } else if e.3 is Some {
                e.3->0
            } else if e.4 is Some {
                e.4->0
            } else {
                "unknown"@
            },
            None => "unknown"@,
        },
    }
}

/// The label of a neighbor row, given what was read from its evidence.
pub fn row_label_of(label: Option<String>, ev: &Option<EvidenceFields>) -> (r: String)
    ensures
        r@ == row_label_spec(opt_view(label), opt_evidence_view(*ev)),
{
    match label {
        Some(l) => l,
        None => match ev {
            Some(e) => match &e.callee {
                Some(c) => c.clone(),
                None => match &e.import {
                    Some(i) => i.clone(),
                    None => match &e.target_hint {
                        Some(t) => t.clone(),
                        None => match &e.trait_name {
                            Some(t) => t.clone(),
                            None => "unknown".to_owned(),
                        },
                    },
                },
            },
            None => "unknown".to_owned(),
        },
    }
}

/// The label of a neighbor row from its own label and its evidence text.
pub fn label_from_row(label: Option<String>, evidence: Option<String>) -> (r: String)
    ensures
        r@ == row_label_spec(
            opt_view(label),
            match evidence {
                Some(raw) => json_evidence(raw@),
                None => None,
            },
        ),
{
    let ev = match &label {
        Some(_) => None,
        None => match &evidence {
            Some(raw) => parse_evidence(raw.as_str()),
            None => None,
        },
    };
    row_label_of(label, &ev)
}

} // verus!
