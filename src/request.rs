use vstd::prelude::*;
use vstd::std_specs::iter::IteratorSpec;
use vstd::utf8::{decode_utf8, valid_utf8};

use crate::responses::{push_char, raw_response, HttpResponse};
use crate::router::{handled, method_of, Action, Method, Router};

verus! {

/// The characters with Unicode's White_Space property.
pub open spec fn is_white_space(c: char) -> bool {
    ||| '\u{9}' <= c <= '\u{d}'
    ||| c == ' '
    ||| c == '\u{85}'
    ||| c == '\u{a0}'
    ||| c == '\u{1680}'
    ||| '\u{2000}' <= c <= '\u{200a}'
    ||| c == '\u{2028}'
    ||| c == '\u{2029}'
    ||| c == '\u{202f}'
    ||| c == '\u{205f}'
    ||| c == '\u{3000}'
}

/// Relies on `char::is_whitespace`: true exactly for White_Space characters.
#[verifier::external_body]
fn white_space(c: char) -> (r: bool)
    ensures
        r == is_white_space(c),
{
    c.is_whitespace()
}

/// Relies on `std::str::from_utf8`: the text that valid UTF-8 bytes
/// encode, and nothing for any other bytes.
#[verifier::external_body]
fn utf8_text(bytes: &[u8]) -> (r: Option<&str>)
    ensures
        r is Some <==> valid_utf8(bytes@),
        r matches Some(s) ==> s@ == decode_utf8(bytes@),
{
    std::str::from_utf8(bytes).ok()
}

/// Scanning `s` from the left: the words completed so far, and the word
/// in progress.
pub open spec fn scan_words(s: Seq<char>) -> (Seq<Seq<char>>, Seq<char>)
    decreases s.len(),
{
    if s.len() == 0 {
        (seq![], seq![])
    } else {
        let (done, cur) = scan_words(s.drop_last());
        let c = s.last();
        if !is_white_space(c) {
            (done, cur.push(c))
        } else if cur.len() > 0 {
            (done.push(cur), seq![])
        } else {
            (done, cur)
        }
    }
}

/// The maximal runs of non-white-space characters of `s`, in order.
pub open spec fn words(s: Seq<char>) -> Seq<Seq<char>> {
    let (done, cur) = scan_words(s);
    if cur.len() > 0 {
        done.push(cur)
    } else {
        done
    }
}

/// The method token of a request line: its first word, or empty.
pub open spec fn method_token(line: Seq<char>) -> Seq<char> {
    let w = words(line);
    if w.len() > 0 {
        w[0]
    } else {
        seq![]
    }
}

/// The path of a request line: its second word, or `/`.
pub open spec fn path_token(line: Seq<char>) -> Seq<char> {
    let w = words(line);
    if w.len() > 1 {
        w[1]
    } else {
        seq!['/']
    }
}

/// The text of a request: its bytes decoded as UTF-8, or empty when they
/// are not valid UTF-8.
pub open spec fn request_text(bytes: Seq<u8>) -> Seq<char> {
    if valid_utf8(bytes) {
        decode_utf8(bytes)
    } else {
        seq![]
    }
}

/// The method token and the path of a request line.
pub fn parse_request_line(line: &str) -> (r: (String, String))
    ensures
        r.0@ == method_token(line@),
        r.1@ == path_token(line@),
{
    let mut done: Vec<String> = Vec::new();
    let mut cur = String::new();
    let mut chars = line.chars();
    let ghost mut seen: Seq<char> = seq![];
    loop
        invariant
            seen + chars.remaining() == line@,
            chars.obeys_prophetic_iter_laws(),
            chars.decrease() is Some,
            done.len() == scan_words(seen).0.len(),
            forall|i: int| 0 <= i < done.len() ==> #[trigger] done[i]@ == scan_words(seen).0[i],
            cur@ == scan_words(seen).1,
        ensures
            seen == line@,
        decreases chars.decrease()->0,
    {
        let ghost before = chars.remaining();
        match chars.next() {
            Some(c) => {
                proof {
                    assert((seen.push(c)).drop_last() =~= seen);
                    assert(seen.push(c) + chars.remaining() =~= line@) by {
                        assert(before =~= seq![c] + chars.remaining());
                    }
                    seen = seen.push(c);
                }
                if !white_space(c) {
                    push_char(&mut cur, c);
                } else if !cur.as_str().is_empty() {
                    done.push(cur);
                    cur = String::new();
                }
            },
            None => {
                proof {
                    assert(seen =~= line@);
                }
                break ;
            },
        }
    }
    let ghost all = scan_words(line@);
    if !cur.as_str().is_empty() {
        done.push(cur);
        assert(words(line@) == all.0.push(all.1));
    }
    assert(done.len() == words(line@).len());
    assert(forall|i: int| 0 <= i < done.len() ==> #[trigger] done[i]@ == words(line@)[i]);
    let method = if done.len() > 0 {
        done[0].clone()
    } else {
        String::new()
    };
    let path = if done.len() > 1 {
        done[1].clone()
    } else {
        "/".to_owned()
    };
    proof {
        reveal_strlit("/");
    }
    (method, path)
}

/// The action for a request whose bytes are `bytes`: a method token that
/// names no verb gets the 405 response; otherwise the router decides.
pub open spec fn request_action<'a, H, L: Fn(H) -> H>(
    router: &'a Router<H, L>,
    bytes: Seq<u8>,
    r: Action<'a, H>,
) -> bool {
    let line = request_text(bytes);
    match method_of(method_token(line)) {
        None => r matches Action::Respond(s) && s@ == raw_response(
            405,
            "text/plain"@,
            "405 Method not allowed"@,
        ),
        Some(m) => handled(router, path_token(line), m, r),
    }
}

/// Decides what a connection's request gets: the request bytes are
/// decoded (invalid UTF-8 reads as empty), split into method token and
/// path, and dispatched.
pub fn handle_request<'a, H, L: Fn(H) -> H>(router: &'a Router<H, L>, bytes: &[u8]) -> (r: Action<'a, H>)
    requires
        router.wf(),
    ensures
        request_action(router, bytes@, r),
{
    let text = match utf8_text(bytes) {
        Some(s) => s,
        None => "",
    };
    proof {
        reveal_strlit("");
    }
    let (method, path) = parse_request_line(text);
    match Method::from_str(method.as_str()) {
        Some(m) => router.handle(path.as_str(), m),
        None => Action::Respond(HttpResponse::method_not_allowed()),
    }
}

} // verus!
