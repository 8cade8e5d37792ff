//! Script-generated deals via the dealer service.
//!
//! The dealer API needs a token that the browser can't hold, so this service
//! proxies: the client sends the raw script text and gets a board back through
//! the normal deal flow. Without a token the source is unavailable.

use vstd::prelude::*;
use vstd::string::*;

use crate::text::{
    chars_of, contains_text, find_char_from, first_index, first_visible, holds,
    law_first_is_replaced, law_nothing_to_replace, lemma_first_index_bounds, lines_of, occurs_at,
    replace, replaced, starts_visibly, trim_end_char, without_return, without_trailing,
};

verus! {

/// How the dealer service is reached.
#[derive(Debug)]
pub struct DealerClient {
    pub url: String,
    pub token: String,
}

/// Cap on client-supplied script text, in bytes.
pub const MAX_SCRIPT_BYTES: usize = 32_768;

/// How the dealer service is reached, if there is a token for it.
pub fn init(url: &str, token: Option<String>) -> (r: Option<DealerClient>)
    ensures
        match r {
            Some(client) => token is Some && client.token@ == token->0@ && client.url@
                == without_trailing(url@, '/'),
            None => token is None,
        },
{
    match token {
        Some(token) => Some(DealerClient { url: trim_end_char(url, '/'), token }),
        None => None,
    }
}

/// Whether script deals are set up.
pub fn available(client: &Option<DealerClient>) -> (r: bool)
    ensures
        r == (client is Some),
{
    client.is_some()
}

/// Why a script gives no board.
#[derive(Clone, Copy, Debug, PartialEq, Eq, Structural)]
pub enum DealerError {
    TooLarge,
    NoDeal,
}

impl DealerError {
    pub open spec fn words(self) -> Seq<char> {
        match self {
            DealerError::TooLarge => "script too large"@,
            DealerError::NoDeal => "dealer produced no deal (script may filter everything out)"@,
        }
    }

    pub fn message(&self) -> (r: &'static str)
        ensures
            r@ == self.words(),
    {
        match self {
            DealerError::TooLarge => "script too large",
            DealerError::NoDeal => "dealer produced no deal (script may filter everything out)",
        }
    }
}

/// A script made ready: one deal is produced, and printed as PBN.
pub open spec fn prepared(script: Seq<char>) -> Seq<char> {
    "produce 1\n"@ + replaced(script, "action printoneline"@, "action printpbn"@)
}

/// The script to run for a client's script. The scripts end in `action
/// printoneline, <stats…>` — `printpbn` is swapped in (the script's stats
/// actions stay, harmless) and `produce 1` forced.
pub fn prepare(script: &str) -> (r: Result<String, DealerError>)
    ensures
        match r {
            Ok(s) => script.spec_bytes().len() <= MAX_SCRIPT_BYTES && s@ == prepared(script@),
            Err(e) => script.spec_bytes().len() > MAX_SCRIPT_BYTES && e == DealerError::TooLarge,
        },
{
    if script.as_bytes().len() > MAX_SCRIPT_BYTES {
        return Err(DealerError::TooLarge);
    }
    proof {
        reveal_strlit("action printoneline");
    }
    let body = replace(script, "action printoneline", "action printpbn");
    let mut s = "produce 1\n".to_owned();
    s.append(body.as_str());
    Ok(s)
}

/// The lines that are PBN tags: those whose first visible character is `[`.
pub open spec fn tags(lines: Seq<Seq<char>>) -> Seq<Seq<char>>
    decreases lines.len(),
{
    if lines.len() == 0 {
        seq![]
    } else {
        let rest = tags(lines.drop_first());
        if first_visible(lines[0], '[') {
            seq![lines[0]] + rest
        } else {
            rest
        }
    }
}

/// Lines joined by line feeds, after what has been joined so far.
pub open spec fn join_onto(text: Seq<char>, first: bool, lines: Seq<Seq<char>>) -> Seq<char>
    decreases lines.len(),
{
    if lines.len() == 0 {
        text
    } else {
        join_onto(
            if first {
                text + lines[0]
            } else {
                text.push('\n') + lines[0]
            },
            false,
            lines.drop_first(),
        )
    }
}

/// The tag lines of a dealer's output, joined by line feeds.
pub open spec fn tag_text(output: Seq<char>) -> Seq<char> {
    join_onto(seq![], true, tags(lines_of(output)))
}

/// Appends `chars[from..to]`.
fn push_chars(out: &mut String, chars: &Vec<char>, from: usize, to: usize)
    requires
        from <= to <= chars.len(),
    ensures
        final(out)@ == old(out)@ + chars@.subrange(from as int, to as int),
{
    let mut i: usize = from;
    assert(out@ =~= old(out)@ + chars@.subrange(from as int, i as int));
    while i < to
        invariant
            from <= i <= to <= chars.len(),
            out@ == old(out)@ + chars@.subrange(from as int, i as int),
        decreases to - i,
    {
        out.push(chars[i]);
        i = i + 1;
        assert(out@ =~= old(out)@ + chars@.subrange(from as int, i as int));
    }
}

/// The board that a dealer's output holds: its `[Tag "…"]` lines, so that the
/// PBN parser never sees the trailing frequency tables.
pub fn extract_board(output: &str) -> (r: Result<String, DealerError>)
    ensures
        match r {
            Ok(pbn) => pbn@ == tag_text(output@) && holds(pbn@, "[Deal "@),
            Err(e) => !holds(tag_text(output@), "[Deal "@) && e == DealerError::NoDeal,
        },
{
    let chars = chars_of(output);
    let n: usize = chars.len();
    let mut pbn = String::new();
    let mut first = true;
    let mut at: usize = 0;
    proof {
        assert(chars@.subrange(0, n as int) =~= output@);
        assert(pbn@ =~= Seq::<char>::empty());
    }
    while at < n
        invariant
            n == chars@.len(),
            at <= n,
            join_onto(
                pbn@,
                first,
                tags(lines_of(chars@.subrange(at as int, n as int))),
            ) == tag_text(output@),
        decreases n - at,
    {
        let ghost rest = chars@.subrange(at as int, n as int);
        let end: usize = find_char_from(&chars, at, '\n');
        proof {
            lemma_first_index_bounds(rest, '\n');
        }
        // A line that ends with a line feed also drops a carriage return.
        let stop: usize = if end < n && end > at && chars[end - 1] == '\r' {
            end - 1
        } else {
            end
        };
        let ghost line = chars@.subrange(at as int, stop as int);
        let next: usize = if end < n {
            end + 1
        } else {
            n
        };
        let ghost tail = chars@.subrange(next as int, n as int);
        proof {
            assert(lines_of(rest) =~= seq![line] + lines_of(tail)) by {
                let i = first_index(rest, '\n');
                assert(i == end - at);
                if i >= rest.len() {
                    assert(line =~= rest);
                    assert(tail =~= Seq::<char>::empty());
                    assert(lines_of(tail) =~= Seq::<Seq<char>>::empty());
                } else {
                    assert(rest.subrange(0, i) =~= chars@.subrange(at as int, end as int));
                    if end > at {
                        assert(rest.subrange(0, i).last() == chars@[end - 1]);
                    }
                    assert(without_return(rest.subrange(0, i)) =~= line);
                    assert(rest.subrange(i + 1, rest.len() as int) =~= tail);
                }
            }
            assert((seq![line] + lines_of(tail)).drop_first() =~= lines_of(tail));
        }
        let ghost lines = seq![line] + lines_of(tail);
        if starts_visibly(&chars, at, stop, '[') {
            let ghost before = pbn@;
            let ghost was_first = first;
            proof {
                assert(tags(lines) == seq![line] + tags(lines_of(tail)));
                assert((seq![line] + tags(lines_of(tail))).drop_first() =~= tags(lines_of(tail)));
            }
            if !first {
                pbn.push('\n');
            }
            push_chars(&mut pbn, &chars, at, stop);
            first = false;
            proof {
                assert(pbn@ == (if was_first {
                    before + line
                } else {
                    before.push('\n') + line
                }));
            }
        }
        at = next;
    }
    proof {
        assert(chars@.subrange(at as int, n as int) =~= Seq::<char>::empty());
        assert(lines_of(chars@.subrange(at as int, n as int)) =~= Seq::<Seq<char>>::empty());
    }
    if contains_text(pbn.as_str(), "[Deal ") {
        Ok(pbn)
    } else {
        Err(DealerError::NoDeal)
    }
}

/// Nothing but tag lines of the output is kept.
pub proof fn law_only_tags(lines: Seq<Seq<char>>, i: int)
    requires
        0 <= i < tags(lines).len(),
    ensures
        first_visible(tags(lines)[i], '['),
        lines.contains(tags(lines)[i]),
    decreases lines.len(),
{
    let rest = tags(lines.drop_first());
    let first = if first_visible(lines[0], '[') {
        1int
    } else {
        0int
    };
    if i < first {
        assert(tags(lines)[i] == lines[0]);
    } else {
        law_only_tags(lines.drop_first(), i - first);
        assert(tags(lines)[i] == rest[i - first]);
        let k = lines.drop_first().index_of(rest[i - first]);
        assert(lines[k + 1] == tags(lines)[i]);
    }
}

/// A script is run to produce one deal. Where it prints one line it is made to
/// print PBN, at the first such place and, in the same way, after it; the rest
/// of it stays as it is.
pub proof fn law_prepared(before: Seq<char>, after: Seq<char>, other: Seq<char>)
    requires
        forall|i: int|
            0 <= i < before.len() ==> !#[trigger] occurs_at(
                before + "action printoneline"@ + after,
                "action printoneline"@,
                i,
            ),
        forall|i: int| 0 <= i ==> !#[trigger] occurs_at(other, "action printoneline"@, i),
    ensures
        prepared(before + "action printoneline"@ + after) == "produce 1\n"@ + (before
            + "action printpbn"@ + replaced(
            after,
            "action printoneline"@,
            "action printpbn"@,
        )),
        prepared(other) == "produce 1\n"@ + other,
{
    reveal_strlit("action printoneline");
    law_first_is_replaced(before, "action printoneline"@, "action printpbn"@, after);
    law_nothing_to_replace(other, "action printoneline"@, "action printpbn"@);
}

/// The tag lines are kept in their order, and no other line is.
pub proof fn law_tags_in_order(lines: Seq<Seq<char>>, line: Seq<char>)
    ensures
        tags(lines.push(line)) == (if first_visible(line, '[') {
            tags(lines).push(line)
        } else {
            tags(lines)
        }),
    decreases lines.len(),
{
    let longer = lines.push(line);
    if lines.len() > 0 {
        law_tags_in_order(lines.drop_first(), line);
        assert(longer.drop_first() =~= lines.drop_first().push(line));
        if first_visible(lines[0], '[') && first_visible(line, '[') {
            assert(seq![lines[0]] + tags(lines.drop_first()).push(line) =~= (seq![lines[0]] + tags(
                lines.drop_first(),
            )).push(line));
        }
    } else {
        assert(longer.drop_first() =~= Seq::<Seq<char>>::empty());
        assert(tags(longer.drop_first()) =~= Seq::<Seq<char>>::empty());
        assert(tags(longer) =~= (if first_visible(line, '[') {
            tags(lines).push(line)
        } else {
            tags(lines)
        }));
    }
}

/// Joined lines stand one after the other, with a line feed between any two and
/// none at either end.
pub proof fn law_joined_by_line_feeds(
    text: Seq<char>,
    first: bool,
    lines: Seq<Seq<char>>,
    line: Seq<char>,
)
    ensures
        join_onto(text, first, lines.push(line)) == (if first && lines.len() == 0 {
            text + line
        } else {
            join_onto(text, first, lines).push('\n') + line
        }),
    decreases lines.len(),
{
    let longer = lines.push(line);
    if lines.len() > 0 {
        let next = if first {
            text + lines[0]
        } else {
            text.push('\n') + lines[0]
        };
        law_joined_by_line_feeds(next, false, lines.drop_first(), line);
        assert(longer.drop_first() =~= lines.drop_first().push(line));
        assert(longer[0] == lines[0]);
    } else {
        assert(longer.drop_first() =~= Seq::<Seq<char>>::empty());
        assert(longer[0] == line);
        let next = if first {
            text + line
        } else {
            text.push('\n') + line
        };
        assert(join_onto(next, false, longer.drop_first()) == next);
    }
}

/// What a client is told of a script that gives no board.
pub proof fn law_dealer_words(e: DealerError)
    ensures
        e.words() == "script too large"@ || e.words()
            == "dealer produced no deal (script may filter everything out)"@,
        e.words() == "script too large"@ <==> e is TooLarge,
{
    reveal_strlit("script too large");
    reveal_strlit("dealer produced no deal (script may filter everything out)");
    assert("script too large"@[0] == 's');
    assert("dealer produced no deal (script may filter everything out)"@[0] == 'd');
}

} // verus!
