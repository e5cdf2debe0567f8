//! JSON rendering of the selected sessions.
//!
//! The response is a JSON array of objects with the six fixed field names, in
//! the order the columns have in the database. String values are escaped as
//! JSON requires: quote and backslash get a backslash, and control characters
//! are written as `\n`, `\r`, `\t` or a `\u00..` sequence.

use vstd::prelude::*;
use crate::agent::AgentSession;

verus! {

/// The lower-case hexadecimal digit for `n`.
pub open spec fn hex_digit(n: int) -> char {
    "0123456789abcdef"@[n]
}

/// What stands in a JSON string for the character `c`.
pub open spec fn escaped_char(c: char) -> Seq<char> {
    if c == '"' {
        "\\\""@
    } else if c == '\\' {
        "\\\\"@
    } else if c == '\n' {
        "\\n"@
    } else if c == '\r' {
        "\\r"@
    } else if c == '\t' {
        "\\t"@
    } else if (c as u32) < 0x20 {
        "\\u00"@ + seq![hex_digit((c as u32) as int / 16), hex_digit((c as u32) as int % 16)]
    } else {
        seq![c]
    }
}

/// The body of a JSON string holding the characters `s`.
pub open spec fn escaped(s: Seq<char>) -> Seq<char>
    decreases s.len(),
{
    if s.len() == 0 {
        Seq::empty()
    } else {
        escaped(s.drop_last()) + escaped_char(s.last())
    }
}

/// The JSON string holding the characters `s`, quotes included.
pub open spec fn quoted(s: Seq<char>) -> Seq<char> {
    "\""@ + escaped(s) + "\""@
}

/// How the optional stop time is rendered: JSON `null` when absent.
pub open spec fn rendered_stopped(v: Option<String>) -> Seq<char> {
    match v {
        Option::None => "null"@,
        Option::Some(t) => quoted(t@),
    }
}

/// The JSON object for one session, with the six fixed field names.
pub open spec fn rendered_object(s: AgentSession) -> Seq<char> {
    "{\"agent_id\":"@ + quoted(s.agent_id@) + ",\"agent_type\":"@ + quoted(s.agent_type@)
        + ",\"session_id\":"@ + quoted(s.session_id@) + ",\"cwd\":"@ + quoted(s.cwd@)
        + ",\"started_at\":"@ + quoted(s.started_at@) + ",\"stopped_at\":"@ + rendered_stopped(
        s.stopped_at,
    ) + "}"@
}

/// The comma-separated object list for the rows.
pub open spec fn rendered_items(rows: Seq<AgentSession>) -> Seq<char>
    decreases rows.len(),
{
    if rows.len() == 0 {
        Seq::empty()
    } else if rows.len() == 1 {
        rendered_object(rows[0])
    } else {
        rendered_items(rows.drop_last()) + ","@ + rendered_object(rows.last())
    }
}

/// The whole JSON array for the rows.
pub open spec fn rendered_array(rows: Seq<AgentSession>) -> Seq<char> {
    "["@ + rendered_items(rows) + "]"@
}

/// Appends the escaped body of `s` to `out`.
fn append_escaped(out: &mut String, s: &str)
    ensures
        final(out)@ == old(out)@ + escaped(s@),
{
    let n = s.unicode_len();
    let mut i: usize = 0;
    proof {
        assert(s@.take(0) =~= Seq::<char>::empty());
        assert(out@ =~= old(out)@ + escaped(s@.take(0)));
    }
    while i < n
        invariant
            i <= n,
            n == s@.len(),
            out@ == old(out)@ + escaped(s@.take(i as int)),
        decreases n - i,
    {
        let c = s.get_char(i);
        proof {
            assert(s@.take(i + 1).drop_last() =~= s@.take(i as int));
            assert(s@.take(i + 1).last() == s@[i as int]);
        }
        if c == '"' {
            out.append("\\\"");
        } else if c == '\\' {
            out.append("\\\\");
        } else if c == '\n' {
            out.append("\\n");
        } else if c == '\r' {
            out.append("\\r");
        } else if c == '\t' {
            out.append("\\t");
        } else if (c as u32) < 0x20 {
            let scalar = c as u32;
            let hex = "0123456789abcdef";
            proof {
                reveal_strlit("0123456789abcdef");
            }
            let hi = (scalar / 16) as usize;
            let lo = (scalar % 16) as usize;
            out.append("\\u00");
            let d1 = hex.substring_char(hi, hi + 1);
            out.append(d1);
            let d2 = hex.substring_char(lo, lo + 1);
            out.append(d2);
            proof {
                assert(d1@ =~= seq![hex_digit(scalar as int / 16)]);
                assert(d2@ =~= seq![hex_digit(scalar as int % 16)]);
                assert(seq![hex_digit(scalar as int / 16)] + seq![
                    hex_digit(scalar as int % 16),
                ] =~= seq![hex_digit(scalar as int / 16), hex_digit(scalar as int % 16)]);
            }
        } else {
            let piece = s.substring_char(i, i + 1);
            proof {
                assert(piece@ =~= seq![c]);
            }
            out.append(piece);
        }
        proof {
            assert(out@ =~= old(out)@ + escaped(s@.take(i + 1)));
        }
        i = i + 1;
    }
    proof {
        assert(s@.take(n as int) =~= s@);
    }
}

/// Appends the JSON string for `s` to `out`, quotes included.
fn append_quoted(out: &mut String, s: &str)
    ensures
        final(out)@ == old(out)@ + quoted(s@),
{
    out.append("\"");
    append_escaped(out, s);
    out.append("\"");
    proof {
        assert(out@ =~= old(out)@ + quoted(s@));
    }
}

/// Appends the JSON object for one session to `out`.
fn append_object(out: &mut String, s: &AgentSession)
    ensures
        final(out)@ == old(out)@ + rendered_object(*s),
{
    out.append("{\"agent_id\":");
    append_quoted(out, s.agent_id.as_str());
    out.append(",\"agent_type\":");
    append_quoted(out, s.agent_type.as_str());
    out.append(",\"session_id\":");
    append_quoted(out, s.session_id.as_str());
    out.append(",\"cwd\":");
    append_quoted(out, s.cwd.as_str());
    out.append(",\"started_at\":");
    append_quoted(out, s.started_at.as_str());
    out.append(",\"stopped_at\":");
    match &s.stopped_at {
        Option::Some(t) => append_quoted(out, t.as_str()),
        Option::None => out.append("null"),
    }
    out.append("}");
    proof {
        assert(out@ =~= old(out)@ + rendered_object(*s));
    }
}

/// Renders the rows as a JSON array string.
pub fn render_array(rows: &Vec<AgentSession>) -> (r: String)
    ensures
        r@ == rendered_array(rows@),
{
    let mut out = String::new();
    out.append("[");
    let n = rows.len();
    let mut i: usize = 0;
    proof {
        assert(rows@.take(0) =~= Seq::<AgentSession>::empty());
        assert(out@ =~= "["@ + rendered_items(rows@.take(0)));
    }
    while i < n
        invariant
            i <= n,
            n == rows@.len(),
            out@ == "["@ + rendered_items(rows@.take(i as int)),
        decreases n - i,
    {
        if i > 0 {
            out.append(",");
        }
        append_object(&mut out, &rows[i]);
        proof {
            assert(rows@.take(i + 1).drop_last() =~= rows@.take(i as int));
            assert(rows@.take(i + 1).last() == rows@[i as int]);
            assert(out@ =~= "["@ + rendered_items(rows@.take(i + 1)));
        }
        i = i + 1;
    }
    out.append("]");
    proof {
        assert(rows@.take(n as int) =~= rows@);
        assert(out@ =~= rendered_array(rows@));
    }
    out
}

} // verus!
