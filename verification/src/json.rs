//! The canonical JSON form of the persisted records.
//!
//! A topic record is laid out as `{"name":…,"revs":[{"Add":[…]}…],"owner":…}`
//! and a tag index as `{"name":…,"topics":[…]}`, matching the files the
//! store keeps on disk. Encoding is fully specified down to the character.

use vstd::prelude::*;
use crate::crypto::b64_of;
use crate::store::hex_digit;
use crate::topic::{uids_view, Index, OwnedTopicId, RevOpView, RevisionOp, TopicData, TopicDataView};

verus! {

/// Relies on String::push: appends exactly one character.
#[verifier::external_body]
pub(crate) fn push_char(s: &mut String, c: char)
    ensures
        final(s)@ == old(s)@ + seq![c],
{
    s.push(c);
}

/// The escape of one character inside a JSON string: quote and backslash
/// are escaped, common control characters get their short forms, the rest
/// of the control range is written as a `\u00..` sequence.
pub open spec fn esc_char(c: char) -> Seq<char> {
    if c == '"' {
        seq!['\\', '"']
    } else if c == '\\' {
        seq!['\\', '\\']
    } else if c == '\n' {
        seq!['\\', 'n']
    } else if c == '\t' {
        seq!['\\', 't']
    } else if c == '\r' {
        seq!['\\', 'r']
    } else if (c as u32) < 32 {
        seq!['\\', 'u', '0', '0', hex_digit((c as u32) as int / 16), hex_digit((c as u32) as int % 16)]
    } else {
        seq![c]
    }
}

/// A string body, escaped character by character.
pub open spec fn esc_seq(s: Seq<char>) -> Seq<char>
    decreases s.len(),
{
    if s.len() == 0 {
        Seq::empty()
    } else {
        esc_seq(s.drop_last()) + esc_char(s.last())
    }
}

/// A JSON string: the escaped body in double quotes.
pub open spec fn json_string(s: Seq<char>) -> Seq<char> {
    seq!['"'] + esc_seq(s) + seq!['"']
}

/// JSON strings, comma-separated.
pub open spec fn join_strings(items: Seq<Seq<char>>) -> Seq<char>
    decreases items.len(),
{
    if items.len() == 0 {
        Seq::empty()
    } else if items.len() == 1 {
        json_string(items[0])
    } else {
        join_strings(items.drop_last()) + seq![','] + json_string(items.last())
    }
}

/// A JSON array of strings.
pub open spec fn string_list_json(items: Seq<Seq<char>>) -> Seq<char> {
    seq!['['] + join_strings(items) + seq![']']
}

/// One revision operation: an object with a single `Add` or `Del` key.
pub open spec fn op_json(op: RevOpView) -> Seq<char> {
    match op {
        RevOpView::Add(items) => "{\"Add\":"@ + string_list_json(items) + seq!['}'],
        RevOpView::Del(items) => "{\"Del\":"@ + string_list_json(items) + seq!['}'],
    }
}

/// Revision operations, comma-separated.
pub open spec fn join_ops(revs: Seq<RevOpView>) -> Seq<char>
    decreases revs.len(),
{
    if revs.len() == 0 {
        Seq::empty()
    } else if revs.len() == 1 {
        op_json(revs[0])
    } else {
        join_ops(revs.drop_last()) + seq![','] + op_json(revs.last())
    }
}

/// The owner field: `null`, or the key's base64 form as a JSON string.
pub open spec fn owner_json(o: Option<Seq<u8>>) -> Seq<char> {
    match o {
        None => "null"@,
        Some(k) => json_string(b64_of(k)),
    }
}

/// A whole topic record.
pub open spec fn topic_json(t: TopicDataView) -> Seq<char> {
    "{\"name\":"@ + json_string(t.name) + ",\"revs\":["@ + join_ops(t.revs) + "],\"owner\":"@
        + owner_json(t.owner) + seq!['}']
}

/// A whole tag index record.
pub open spec fn index_json(name: Seq<char>, topics: Seq<Seq<char>>) -> Seq<char> {
    "{\"name\":"@ + json_string(name) + ",\"topics\":"@ + string_list_json(topics) + seq!['}']
}

fn hex_digit_c(v: u8) -> (c: char)
    requires
        v < 16,
    ensures
        c == hex_digit(v as int),
{
    if v < 10 {
        (48u8 + v) as char
    } else {
        (97u8 + (v - 10)) as char
    }
}

/// Append the JSON string form of `s`.
fn append_json_string(out: &mut String, s: &str)
    ensures
        final(out)@ == old(out)@ + json_string(s@),
{
    push_char(out, '"');
    let n = s.unicode_len();
    proof {
        assert(esc_seq(s@.take(0)) =~= Seq::<char>::empty());
        assert(out@ =~= old(out)@ + seq!['"'] + esc_seq(s@.take(0)));
    }
    let mut i: usize = 0;
    while i < n
        invariant
            i <= n,
            n == s@.len(),
            out@ == old(out)@ + seq!['"'] + esc_seq(s@.take(i as int)),
        decreases n - i,
    {
        let c = s.get_char(i);
        let ghost pre = out@;
        proof {
            assert(s@.take(i + 1).drop_last() =~= s@.take(i as int));
            assert(s@.take(i + 1).last() == s@[i as int]);
        }
        if c == '"' {
            out.append("\\\"");
            proof {
                reveal_strlit("\\\"");
                assert("\\\""@ =~= esc_char('"'));
            }
        } else if c == '\\' {
            out.append("\\\\");
            proof {
                reveal_strlit("\\\\");
                assert("\\\\"@ =~= esc_char('\\'));
            }
        } else if c == '\n' {
            out.append("\\n");
            proof {
                reveal_strlit("\\n");
                assert("\\n"@ =~= esc_char('\n'));
            }
        } else if c == '\t' {
            out.append("\\t");
            proof {
                reveal_strlit("\\t");
                assert("\\t"@ =~= esc_char('\t'));
            }
        } else if c == '\r' {
            out.append("\\r");
            proof {
                reveal_strlit("\\r");
                assert("\\r"@ =~= esc_char('\r'));
            }
        } else if (c as u32) < 32 {
            let v = c as u32;
            out.append("\\u00");
            push_char(out, hex_digit_c((v / 16) as u8));
            push_char(out, hex_digit_c((v % 16) as u8));
            proof {
                reveal_strlit("\\u00");
                assert("\\u00"@ + seq![hex_digit(v as int / 16)] + seq![hex_digit(v as int % 16)]
                    =~= esc_char(c));
                assert(out@ =~= pre + ("\\u00"@ + seq![hex_digit(v as int / 16)] + seq![
                    hex_digit(v as int % 16),
                ]));
            }
        } else {
            push_char(out, c);
            proof {
                assert(seq![c] =~= esc_char(c));
            }
        }
        proof {
            assert(out@ =~= pre + esc_char(s@[i as int]));
            assert(out@ =~= old(out)@ + seq!['"'] + esc_seq(s@.take(i + 1)));
        }
        i += 1;
    }
    push_char(out, '"');
    proof {
        assert(s@.take(n as int) =~= s@);
        assert(final(out)@ =~= old(out)@ + json_string(s@));
    }
}

/// Append a JSON array of the given strings.
fn append_string_list(out: &mut String, items: &Vec<String>)
    ensures
        final(out)@ == old(out)@ + string_list_json(uids_view(items@)),
{
    let ghost itemsv = uids_view(items@);
    push_char(out, '[');
    let n = items.len();
    proof {
        assert(join_strings(itemsv.take(0)) =~= Seq::<char>::empty());
        assert(out@ =~= old(out)@ + seq!['['] + join_strings(itemsv.take(0)));
    }
    let mut i: usize = 0;
    while i < n
        invariant
            i <= n,
            n == items@.len(),
            itemsv == uids_view(items@),
            out@ == old(out)@ + seq!['['] + join_strings(itemsv.take(i as int)),
        decreases n - i,
    {
        let ghost pre = out@;
        proof {
            assert(itemsv.take(i + 1).drop_last() =~= itemsv.take(i as int));
            assert(itemsv.take(i + 1).last() == itemsv[i as int]);
        }
        if i > 0 {
            push_char(out, ',');
        }
        append_json_string(out, items[i].as_str());
        proof {
            if i == 0 {
                assert(itemsv.take(1).len() == 1);
                assert(join_strings(itemsv.take(1)) == json_string(itemsv[0]));
                assert(out@ =~= pre + json_string(itemsv[0]));
            } else {
                assert(join_strings(itemsv.take(i + 1)) == join_strings(itemsv.take(i as int)) + seq![
                    ',',
                ] + json_string(itemsv[i as int]));
                assert(out@ =~= pre + seq![','] + json_string(itemsv[i as int]));
            }
            assert(out@ =~= old(out)@ + seq!['['] + join_strings(itemsv.take(i + 1)));
        }
        i += 1;
    }
    push_char(out, ']');
    proof {
        assert(itemsv.take(n as int) =~= itemsv);
        assert(final(out)@ =~= old(out)@ + string_list_json(itemsv));
    }
}

/// Append one revision operation.
fn append_op(out: &mut String, op: &RevisionOp)
    ensures
        final(out)@ == old(out)@ + op_json(op@),
{
    match op {
        RevisionOp::Add(items) => {
            out.append("{\"Add\":");
            append_string_list(out, items);
            push_char(out, '}');
            proof {
                assert(final(out)@ =~= old(out)@ + op_json(op@));
            }
        },
        RevisionOp::Del(items) => {
            out.append("{\"Del\":");
            append_string_list(out, items);
            push_char(out, '}');
            proof {
                assert(final(out)@ =~= old(out)@ + op_json(op@));
            }
        },
    }
}

impl TopicData {
    /// The canonical JSON form under which the record is persisted.
    pub fn to_json(&self) -> (r: String)
        ensures
            r@ == topic_json(self@),
    {
        let ghost revsv = self@.revs;
        let mut out = String::new();
        out.append("{\"name\":");
        append_json_string(&mut out, self.name.as_str());
        out.append(",\"revs\":[");
        let ghost pre = out@;
        proof {
            assert(join_ops(revsv.take(0)) =~= Seq::<char>::empty());
            assert(out@ =~= pre + join_ops(revsv.take(0)));
        }
        let n = self.revs.len();
        let mut i: usize = 0;
        while i < n
            invariant
                i <= n,
                n == self.revs@.len(),
                revsv == self@.revs,
                out@ == pre + join_ops(revsv.take(i as int)),
            decreases n - i,
        {
            let ghost before = out@;
            proof {
                assert(revsv.take(i + 1).drop_last() =~= revsv.take(i as int));
                assert(revsv.take(i + 1).last() == revsv[i as int]);
                assert(revsv[i as int] == self.revs@[i as int]@);
            }
            if i > 0 {
                push_char(&mut out, ',');
            }
            append_op(&mut out, &self.revs[i]);
            proof {
                if i == 0 {
                    assert(join_ops(revsv.take(1)) == op_json(revsv[0]));
                    assert(out@ =~= before + op_json(revsv[0]));
                } else {
                    assert(join_ops(revsv.take(i + 1)) == join_ops(revsv.take(i as int)) + seq![
                        ',',
                    ] + op_json(revsv[i as int]));
                    assert(out@ =~= before + seq![','] + op_json(revsv[i as int]));
                }
                assert(out@ =~= pre + join_ops(revsv.take(i + 1)));
            }
            i += 1;
        }
        proof {
            assert(revsv.take(n as int) =~= revsv);
        }
        out.append("],\"owner\":");
        match &self.owner {
            None => {
                out.append("null");
            },
            Some(k) => {
                let b64 = k.to_string();
                append_json_string(&mut out, b64.as_str());
            },
        }
        push_char(&mut out, '}');
        proof {
            assert(out@ =~= topic_json(self@));
        }
        out
    }
}

impl Index {
    /// The canonical JSON form under which the index is persisted.
    pub fn to_json(&self) -> (r: String)
        ensures
            r@ == index_json(self.name@, uids_view(self.topics@)),
    {
        let mut out = String::new();
        out.append("{\"name\":");
        append_json_string(&mut out, self.name.as_str());
        out.append(",\"topics\":");
        append_string_list(&mut out, &self.topics);
        push_char(&mut out, '}');
        proof {
            assert(out@ =~= index_json(self.name@, uids_view(self.topics@)));
        }
        out
    }
}

impl OwnedTopicId {
    /// The record key this id serializes to: the JSON string of
    /// `topic.owner_id`.
    pub fn to_string(&self) -> (r: String)
        ensures
            r@ == json_string(self.topic@ + seq!['.'] + self.owner_id@),
    {
        let mut inner = String::new();
        proof {
            reveal_strlit(".");
            assert("."@ =~= seq!['.']);
        }
        inner.append(self.topic.as_str());
        inner.append(".");
        inner.append(self.owner_id.as_str());
        let mut out = String::new();
        append_json_string(&mut out, inner.as_str());
        proof {
            assert(out@ =~= json_string(self.topic@ + seq!['.'] + self.owner_id@));
        }
        out
    }
}

} // verus!
