//! The prompt that asks a language model for a circuit intent as JSON.

use vstd::prelude::*;
use crate::text::{concat, occurs_at, spec_contains_sub};

verus! {

/// The prompt text before the first copy of the user's request.
pub const PROMPT_HEAD: &'static str = "You are Oxide EDA's AI Circuit Synthesis Engine.\nYour goal is to parse user electronic requirements into a structured, validated circuit graph.\n\nUser Request: \"";

/// The prompt text between the two copies of the user's request.
pub const PROMPT_MIDDLE: &'static str = "\"\n\nOutput MUST be a single, valid JSON object strictly matching this schema:\n{\n  \"prompt\": \"";

/// The prompt text after the second copy of the user's request.
pub const PROMPT_TAIL: &'static str = "\",\n  \"components\": [\n    {\n      \"function\": \"<Exact Component Name or Function, e.g. ESP32-S3, TP4056, USB-C 16-Pin>\",\n      \"designator_prefix\": \"<U, C, R, J, D>\"\n    }\n  ],\n  \"connections\": [\n    {\n      \"net_name\": \"<NET_NAME, e.g. VBUS, GND, USB_D+, USB_D->\",\n      \"from\": [\"<Source Component Function>\", \"<Pin Name>\"],\n      \"to\": [\"<Destination Component Function>\", \"<Pin Name>\"]\n    }\n  ],\n  \"constraints\": [\n    \"<Engineering constraints, e.g. 90 Ohm differential pair for USB>\"\n  ]\n}\n\nRules:\n1. Always include necessary power pins (VBUS, +3V3, GND).\n2. For microcontrollers, include power decoupling capacitors and boot/reset pullups.\n3. For USB data lines, specify 90 Ohm differential pair constraint.\n4. Output JSON ONLY, no surrounding markdown fences or commentary.";

/// The full prompt for a user request: the request is quoted verbatim
/// after `User Request:` and again as the schema's `prompt` value.
pub open spec fn spec_prompt(user_prompt: Seq<char>) -> Seq<char> {
    PROMPT_HEAD@ + user_prompt + PROMPT_MIDDLE@ + user_prompt + PROMPT_TAIL@
}

/// Builds the circuit-synthesis prompt for `user_prompt` (see
/// [`spec_prompt`]).
pub fn generate_circuit_generation_prompt(user_prompt: &str) -> (r: String)
    ensures
        r@ == spec_prompt(user_prompt@),
{
    let a = concat(PROMPT_HEAD, user_prompt);
    let b = concat(a.as_str(), PROMPT_MIDDLE);
    let c = concat(b.as_str(), user_prompt);
    concat(c.as_str(), PROMPT_TAIL)
}

/// The prompt starts with the engine's introduction, quotes the request
/// after `User Request:` and again as the schema's `"prompt"` value, and
/// ends with the JSON-only rule; and different requests give different
/// prompts.
pub proof fn law_prompt_shape(p: Seq<char>, q: Seq<char>)
    ensures
        "You are Oxide EDA's AI Circuit Synthesis Engine."@.is_prefix_of(spec_prompt(p)),
        spec_contains_sub(spec_prompt(p), "User Request: \""@ + p + "\""@),
        spec_contains_sub(spec_prompt(p), "\"prompt\": \""@ + p + "\""@),
        "Output JSON ONLY, no surrounding markdown fences or commentary."@.is_suffix_of(
            spec_prompt(p),
        ),
        p != q ==> spec_prompt(p) != spec_prompt(q),
{
    reveal_strlit("You are Oxide EDA's AI Circuit Synthesis Engine.\nYour goal is to parse user electronic requirements into a structured, validated circuit graph.\n\nUser Request: \"");
    reveal_strlit("\"\n\nOutput MUST be a single, valid JSON object strictly matching this schema:\n{\n  \"prompt\": \"");
    reveal_strlit("\",\n  \"components\": [\n    {\n      \"function\": \"<Exact Component Name or Function, e.g. ESP32-S3, TP4056, USB-C 16-Pin>\",\n      \"designator_prefix\": \"<U, C, R, J, D>\"\n    }\n  ],\n  \"connections\": [\n    {\n      \"net_name\": \"<NET_NAME, e.g. VBUS, GND, USB_D+, USB_D->\",\n      \"from\": [\"<Source Component Function>\", \"<Pin Name>\"],\n      \"to\": [\"<Destination Component Function>\", \"<Pin Name>\"]\n    }\n  ],\n  \"constraints\": [\n    \"<Engineering constraints, e.g. 90 Ohm differential pair for USB>\"\n  ]\n}\n\nRules:\n1. Always include necessary power pins (VBUS, +3V3, GND).\n2. For microcontrollers, include power decoupling capacitors and boot/reset pullups.\n3. For USB data lines, specify 90 Ohm differential pair constraint.\n4. Output JSON ONLY, no surrounding markdown fences or commentary.");
    reveal_strlit("You are Oxide EDA's AI Circuit Synthesis Engine.");
    reveal_strlit("User Request: \"");
    reveal_strlit("\"");
    reveal_strlit("\"prompt\": \"");
    reveal_strlit("Output JSON ONLY, no surrounding markdown fences or commentary.");
    let h = PROMPT_HEAD@;
    let m = PROMPT_MIDDLE@;
    let t = PROMPT_TAIL@;
    let s = spec_prompt(p);
    assert(s == h + p + m + p + t);
    let intro = "You are Oxide EDA's AI Circuit Synthesis Engine."@;
    assert(s.subrange(0, intro.len() as int) =~= intro);
    let req = "User Request: \""@ + p + "\""@;
    let i1 = h.len() - 15;
    assert(s.subrange(i1, i1 + req.len()) =~= req);
    assert(occurs_at(s, req, i1));
    let pr = "\"prompt\": \""@ + p + "\""@;
    let i2 = h.len() + p.len() + m.len() - 11;
    assert(s.subrange(i2, i2 + pr.len()) =~= pr);
    assert(occurs_at(s, pr, i2));
    let out = "Output JSON ONLY, no surrounding markdown fences or commentary."@;
    assert(s.subrange(s.len() - out.len(), s.len() as int) =~= out);
    if p != q && spec_prompt(p) == spec_prompt(q) {
        let s2 = spec_prompt(q);
        assert(s2 == h + q + m + q + t);
        assert(p.len() == q.len());
        assert(s.subrange(h.len() as int, (h.len() + p.len()) as int) =~= p);
        assert(s2.subrange(h.len() as int, (h.len() + q.len()) as int) =~= q);
    }
}

} // verus!
