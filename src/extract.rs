use vstd::prelude::*;
use crate::json::{get_field, get_str, json_text, json_text_of, Json};
use crate::text::str_eq;

verus! {

/// The two transcript record layouts.
#[derive(Clone, Copy, Debug, PartialEq, Eq, Structural)]
pub enum Schema {
    /// `{type, sessionId, cwd, timestamp, message: {content}}`; the role is the record's type.
    Claude,
    /// `{type: "message", timestamp, message: {role, content}}`, after a session header.
    OpenClaw,
}

/// The text that one content block contributes, if any.
pub open spec fn block_fragment(b: Json, schema: Schema) -> Seq<Seq<char>> {
    match get_str(b, "type"@) {
        Some(t) => if t == "text"@ {
            match get_str(b, "text"@) {
                Some(x) => seq![x],
                None => Seq::empty(),
            }
        } else if t == "tool_result"@ && schema == Schema::Claude {
            match get_field(b, "content"@) {
                Some(c) => seq![json_text_of(c)],
                None => Seq::empty(),
            }
        } else {
            Seq::empty()
        },
        None => Seq::empty(),
    }
}

/// The fragments of a sequence of content blocks, in order.
pub open spec fn fragments(blocks: Seq<Json>, schema: Schema) -> Seq<Seq<char>>
    decreases blocks.len(),
{
    if blocks.len() == 0 {
        Seq::empty()
    } else {
        fragments(blocks.drop_last(), schema) + block_fragment(blocks.last(), schema)
    }
}

/// The parts joined with single spaces.
pub open spec fn join_spaced(parts: Seq<Seq<char>>) -> Seq<char>
    decreases parts.len(),
{
    if parts.len() == 0 {
        Seq::empty()
    } else if parts.len() == 1 {
        parts[0]
    } else {
        join_spaced(parts.drop_last()) + seq![' '] + parts.last()
    }
}

/// The flat text of a message's content: a string as it is, the joined text of
/// a sequence of blocks, and the JSON text of anything else.
pub open spec fn content_text(c: Json, schema: Schema) -> Seq<char> {
    match c {
        Json::Str(s) => s@,
        Json::Array(a) => join_spaced(fragments(a@, schema)),
        _ => json_text_of(c),
    }
}

/// The text of a record's message of the session-tagged layout; empty where a
/// part is missing.
pub open spec fn claude_text(record: Json) -> Seq<char> {
    match get_field(record, "message"@) {
        Some(m) => match get_field(m, "content"@) {
            Some(c) => content_text(c, Schema::Claude),
            None => Seq::empty(),
        },
        None => Seq::empty(),
    }
}

/// The role and text of a record's message of the header-first layout; empty where a part is missing.
pub open spec fn openclaw_text(record: Json) -> (Seq<char>, Seq<char>) {
    match get_field(record, "message"@) {
        Some(m) => {
            let role = match get_str(m, "role"@) {
                Some(r) => r,
                None => Seq::empty(),
            };
            match get_field(m, "content"@) {
                Some(c) => (role, content_text(c, Schema::OpenClaw)),
                None => (role, Seq::empty()),
            }
        },
        None => (Seq::empty(), Seq::empty()),
    }
}

fn block_text(b: &Json, schema: Schema) -> (r: Option<String>)
    ensures
        match r {
            Some(x) => block_fragment(*b, schema) == seq![x@],
            None => block_fragment(*b, schema) == Seq::<Seq<char>>::empty(),
        },
{
    match b.get_str("type") {
        Some(t) => {
            if str_eq(t.as_str(), "text") {
                match b.get_str("text") {
                    Some(x) => Some(x.clone()),
                    None => None,
                }
            } else if str_eq(t.as_str(), "tool_result") && schema == Schema::Claude {
                match b.get("content") {
                    Some(c) => Some(json_text(c)),
                    None => None,
                }
            } else {
                None
            }
        },
        None => None,
    }
}

/// Flattens message content to text.
pub fn extract_content_array(content: &Json, schema: Schema) -> (r: String)
    ensures
        r@ == content_text(*content, schema),
{
    match content {
        Json::Str(s) => s.clone(),
        Json::Array(a) => {
            let mut out = String::new();
            let mut any = false;
            let mut i: usize = 0;
            while i < a.len()
                invariant
                    i <= a@.len(),
                    out@ == join_spaced(fragments(a@.subrange(0, i as int), schema)),
                    any == (fragments(a@.subrange(0, i as int), schema).len() > 0),
                decreases a@.len() - i,
            {
                let ghost pre = fragments(a@.subrange(0, i as int), schema);
                assert(a@.subrange(0, i + 1).drop_last() =~= a@.subrange(0, i as int));
                assert(a@.subrange(0, i + 1).last() == a@[i as int]);
                match block_text(&a[i], schema) {
                    Some(x) => {
                        let ghost next = pre + seq![x@];
                        assert(next.drop_last() =~= pre);
                        assert(next.last() == x@);
                        if any {
                            out.append(" ");
                            proof {
                                reveal_strlit(" ");
                            }
                        } else {
                            assert(next =~= seq![x@]);
                            assert(out@ =~= Seq::<char>::empty());
                        }
                        out.append(x.as_str());
                        any = true;
                        assert(out@ =~= join_spaced(next));
                    },
                    None => {
                        assert(pre + Seq::<Seq<char>>::empty() =~= pre);
                    },
                }
                i = i + 1;
            }
            assert(a@.subrange(0, i as int) =~= a@);
            out
        },
        _ => json_text(content),
    }
}

/// The text of a record of the session-tagged layout.
pub fn extract_text_claude(record: &Json) -> (r: String)
    ensures
        r@ == claude_text(*record),
{
    let message = match record.get("message") {
        Some(m) => m,
        None => {
            return String::new();
        },
    };
    let content = match message.get("content") {
        Some(c) => c,
        None => {
            return String::new();
        },
    };
    extract_content_array(content, Schema::Claude)
}

/// The role and text of a record of the header-first layout.
pub fn extract_text_openclaw(record: &Json) -> (r: (String, String))
    ensures
        (r.0@, r.1@) == openclaw_text(*record),
{
    let message = match record.get("message") {
        Some(m) => m,
        None => {
            return (String::new(), String::new());
        },
    };
    let role = match message.get_str("role") {
        Some(r) => r.clone(),
        None => String::new(),
    };
    let content = match message.get("content") {
        Some(c) => c,
        None => {
            return (role, String::new());
        },
    };
    (role, extract_content_array(content, Schema::OpenClaw))
}

} // verus!
