//! Inputs of the LLM faithfulness judge: its enable setting and its prompt.
use vstd::prelude::*;

use crate::context::{QueryContext, RetrievedChunk, RetrievedEntity};
use crate::text::{chars_of, decimal, lower_seq, push_char, push_chars, push_decimal, push_str, trim_seq};

verus! {

broadcast use vstd::string::group_string_axioms;

/// The judge setting is on: `1`, `true`, `yes`, `on`, `llm` or `judge`
/// (trimmed, ASCII case-insensitive).
pub open spec fn judge_enabled_spec(raw: Seq<char>) -> bool {
    let v = lower_seq(trim_seq(raw));
    v == "1"@ || v == "true"@ || v == "yes"@ || v == "on"@ || v == "llm"@ || v == "judge"@
}

/// Is the LLM faithfulness judge enabled by this setting value?
pub fn parse_faithfulness_judge_enabled(raw: &str) -> (r: bool)
    ensures
        r == judge_enabled_spec(raw@),
{
    let v = crate::text::trim_lower(raw);
    crate::text::eq_str(&v, "1") || crate::text::eq_str(&v, "true") || crate::text::eq_str(
        &v,
        "yes",
    ) || crate::text::eq_str(&v, "on") || crate::text::eq_str(&v, "llm") || crate::text::eq_str(
        &v,
        "judge",
    )
}

/// At most `max` characters of `s`, followed by `…` when it was cut.
pub open spec fn truncate_chars_spec(s: Seq<char>, max: nat) -> Seq<char> {
    if s.len() <= max {
        s
    } else {
        s.take(max as int) + seq!['…']
    }
}

fn push_truncated(out: &mut String, s: &str, max: usize)
    ensures
        final(out)@ == old(out)@ + truncate_chars_spec(s@, max as nat),
{
    let v = chars_of(s);
    if v.len() <= max {
        push_chars(out, &v);
    } else {
        let head = crate::text::slice_range(&v, 0, max);
        push_chars(out, &head);
        push_char(out, '…');
        proof {
            assert(head@ =~= v@.take(max as int));
            assert(final(out)@ =~= old(out)@ + truncate_chars_spec(s@, max as nat));
        }
    }
}

/// `[chunk I] PREVIEW\n` for each chunk, previews cut to 400 characters.
pub open spec fn chunk_evidence(cs: Seq<RetrievedChunk>) -> Seq<char>
    decreases cs.len(),
{
    if cs.len() == 0 {
        seq![]
    } else {
        chunk_evidence(cs.drop_last()) + "[chunk "@ + decimal((cs.len() - 1) as nat) + "] "@
            + truncate_chars_spec(cs.last().content@, 400) + seq!['\n']
    }
}

/// `[entity] NAME — DESCRIPTION\n` for each entity, descriptions cut to 200
/// characters.
pub open spec fn entity_evidence(es: Seq<RetrievedEntity>) -> Seq<char>
    decreases es.len(),
{
    if es.len() == 0 {
        seq![]
    } else {
        entity_evidence(es.drop_last()) + "[entity] "@ + es.last().name@ + " — "@
            + truncate_chars_spec(es.last().description@, 200) + seq!['\n']
    }
}

/// The evidence block: the first eight chunks and the first eight entities,
/// or a placeholder when that is blank.
pub open spec fn judge_evidence(cs: Seq<RetrievedChunk>, es: Seq<RetrievedEntity>) -> Seq<char> {
    let e = chunk_evidence(cs.take(if cs.len() < 8 { cs.len() as int } else { 8 })) + entity_evidence(
        es.take(if es.len() < 8 { es.len() as int } else { 8 }),
    );
    if trim_seq(e).len() == 0 {
        e + "(no retrieved evidence)\n"@
    } else {
        e
    }
}

/// The fixed head of the judge prompt.
pub open spec fn judge_header() -> Seq<char> {
    "You are a faithfulness judge for RAG answers.\nScore how well the ANSWER is grounded in the EVIDENCE on a scale 0.0–1.0.\nReply with ONLY a single float in [0,1] (optional brief reason after).\n\nEVIDENCE:\n"@
}

fn judge_header_str() -> (s: &'static str)
    ensures
        s@ == judge_header(),
{
    "You are a faithfulness judge for RAG answers.\nScore how well the ANSWER is grounded in the EVIDENCE on a scale 0.0–1.0.\nReply with ONLY a single float in [0,1] (optional brief reason after).\n\nEVIDENCE:\n"
}

/// What [`build_faithfulness_judge_prompt`] returns.
pub open spec fn judge_prompt_spec(answer: Seq<char>, cs: Seq<RetrievedChunk>, es: Seq<RetrievedEntity>) -> Seq<
    char,
> {
    judge_header() + judge_evidence(cs, es) + "\nANSWER:\n"@ + truncate_chars_spec(answer, 800)
        + "\n\nScore:"@
}

fn evidence_of(context: &QueryContext) -> (s: String)
    ensures
        s@ == judge_evidence(context.chunks@, context.entities@),
{
    let mut ev = String::new();
    let cs = &context.chunks;
    let nc = if cs.len() < 8 {
        cs.len()
    } else {
        8
    };
    let mut i: usize = 0;
    proof {
        assert(cs@.take(0) =~= Seq::<RetrievedChunk>::empty());
        assert(ev@ =~= chunk_evidence(cs@.take(0)));
    }
    while i < nc
        invariant
            i <= nc <= cs@.len(),
            ev@ == chunk_evidence(cs@.take(i as int)),
        decreases nc - i,
    {
        proof {
            let t = cs@.take(i + 1);
            assert(t.drop_last() =~= cs@.take(i as int));
            assert(t.last() == cs@[i as int]);
        }
        push_str(&mut ev, "[chunk ");
        push_decimal(&mut ev, i as u64);
        push_str(&mut ev, "] ");
        push_truncated(&mut ev, cs[i].content.as_str(), 400);
        push_char(&mut ev, '\n');
        i = i + 1;
    }
    let ghost ce = ev@;
    let es = &context.entities;
    let ne = if es.len() < 8 {
        es.len()
    } else {
        8
    };
    let mut j: usize = 0;
    proof {
        assert(es@.take(0) =~= Seq::<RetrievedEntity>::empty());
        assert(ev@ =~= ce + entity_evidence(es@.take(0)));
    }
    while j < ne
        invariant
            j <= ne <= es@.len(),
            ev@ == ce + entity_evidence(es@.take(j as int)),
        decreases ne - j,
    {
        proof {
            let t = es@.take(j + 1);
            assert(t.drop_last() =~= es@.take(j as int));
            assert(t.last() == es@[j as int]);
        }
        push_str(&mut ev, "[entity] ");
        push_str(&mut ev, es[j].name.as_str());
        push_str(&mut ev, " — ");
        push_truncated(&mut ev, es[j].description.as_str(), 200);
        push_char(&mut ev, '\n');
        j = j + 1;
    }
    let evc = chars_of(ev.as_str());
    let t = crate::text::trim_chars(&evc);
    if t.len() == 0 {
        push_str(&mut ev, "(no retrieved evidence)\n");
    }
    ev
}

/// The judge prompt: fixed instructions, the evidence (the first eight
/// chunks with 400-character previews and the first eight entities with
/// 200-character descriptions, or a placeholder), the answer cut to 800
/// characters, and a closing `Score:`.
pub fn build_faithfulness_judge_prompt(answer: &str, context: &QueryContext) -> (s: String)
    ensures
        s@ == judge_prompt_spec(answer@, context.chunks@, context.entities@),
{
    let ev = evidence_of(context);
    let mut out = String::new();
    push_str(&mut out, judge_header_str());
    push_str(&mut out, ev.as_str());
    push_str(&mut out, "\nANSWER:\n");
    push_truncated(&mut out, answer, 800);
    push_str(&mut out, "\n\nScore:");
    proof {
        assert(out@ =~= judge_prompt_spec(answer@, context.chunks@, context.entities@));
    }
    out
}

} // verus!
