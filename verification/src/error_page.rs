//! The page that stands in for a response when there is none to pass on.

use vstd::prelude::*;
use vstd::std_specs::iter::IteratorSpec;

use crate::text::{decimal, decimal_text};

verus! {

/// The page up to its title.
pub const ERROR_PAGE_START: &'static str = r#"<!DOCTYPE html>
<html lang="en">
<head>
  <meta charset="utf-8">
  <meta name="viewport" content="width=device-width, initial-scale=1.0">
  <title>"#;

/// The page from its title to its heading.
pub const ERROR_PAGE_STYLE: &'static str = r#"</title>
  <style>
    body {
      font-family: system-ui, -apple-system, sans-serif;
      margin: 0;
      padding: max(40px, 12vh) 24px 24px;
      display: flex;
      justify-content: center;
      align-items: flex-start;
      min-height: 100vh;
      box-sizing: border-box;
      background: #f8fafc;
      color: #1e293b;
    }
    @media (prefers-color-scheme: dark) {
      body { background: #0f172a; color: #f8fafc; }
      .card { background: #1e293b !important; border-color: #334155 !important; }
      pre { background: #0f172a !important; color: #94a3b8 !important; }
      button { background: #334155 !important; color: #f8fafc !important; }
    }
    .card {
      max-width: 480px;
      width: 100%;
      background: #fff;
      border: 1px solid #e2e8f0;
      border-radius: 8px;
      padding: 24px;
      box-shadow: 0 1px 3px rgba(0, 0, 0, 0.05);
    }
    h1 { font-size: 1.25rem; margin: 0 0 12px; }
    pre {
      background: #f1f5f9;
      padding: 12px;
      border-radius: 6px;
      font-size: 0.8125rem;
      white-space: pre-wrap;
      word-break: break-all;
      margin: 0 0 16px;
    }
    button {
      padding: 8px 16px;
      border: 0;
      border-radius: 6px;
      background: #e2e8f0;
      color: #1e293b;
      cursor: pointer;
      font-size: 0.875rem;
    }
  </style>
</head>
<body>
  <div class="card">
    <h1>"#;

/// The page from its heading to the message.
pub const ERROR_PAGE_MESSAGE: &'static str = r#"</h1>
    <pre>"#;

/// The page from the message on.
pub const ERROR_PAGE_END: &'static str = r#"</pre>
    <button onclick="location.reload()">Reload</button>
  </div>
</body>
</html>"#;

/// What a character becomes in the text of a page.
pub open spec fn escaped_char(character: char) -> Seq<char> {
    if character == '&' {
        "&amp;"@
    } else if character == '<' {
        "&lt;"@
    } else if character == '>' {
        "&gt;"@
    } else if character == '"' {
        "&quot;"@
    } else {
        seq![character]
    }
}

/// A text with its markup characters replaced by entities.
pub open spec fn escaped(text: Seq<char>) -> Seq<char>
    decreases text.len(),
{
    if text.len() == 0 {
        Seq::empty()
    } else {
        escaped_char(text[0]) + escaped(text.drop_first())
    }
}

/// The title and the heading of the page.
pub open spec fn error_heading(status: u16, reason: Seq<char>) -> Seq<char> {
    decimal(status as nat) + " "@ + reason
}

/// The page that reports a status and a message.
pub open spec fn error_page_text(status: u16, reason: Seq<char>, message: Seq<char>) -> Seq<char> {
    ERROR_PAGE_START@ + error_heading(status, reason) + ERROR_PAGE_STYLE@ + error_heading(
        status,
        reason,
    ) + ERROR_PAGE_MESSAGE@ + escaped(message) + ERROR_PAGE_END@
}

/// A character that opens or closes a tag or an attribute value.
pub open spec fn is_markup(character: char) -> bool {
    character == '<' || character == '>' || character == '"'
}

/// An escaped text holds no character that opens or closes a tag or an attribute value.
pub proof fn escaped_text_holds_no_markup(text: Seq<char>)
    ensures
        forall|i: int| 0 <= i < escaped(text).len() ==> !is_markup(#[trigger] escaped(text)[i]),
    decreases text.len(),
{
    if text.len() > 0 {
        reveal_strlit("&amp;");
        reveal_strlit("&lt;");
        reveal_strlit("&gt;");
        reveal_strlit("&quot;");
        let head = escaped_char(text[0]);
        let tail = escaped(text.drop_first());
        escaped_text_holds_no_markup(text.drop_first());
        assert forall|i: int| 0 <= i < escaped(text).len() implies !is_markup(
            #[trigger] escaped(text)[i],
        ) by {
            if i < head.len() {
                assert(escaped(text)[i] == head[i]);
            } else {
                assert(escaped(text)[i] == tail[i - head.len()]);
            }
        }
    }
}

/// No two texts have the same escaped form, so nothing of the text is lost.
pub proof fn escaping_loses_nothing(left: Seq<char>, right: Seq<char>)
    requires
        escaped(left) == escaped(right),
    ensures
        left == right,
    decreases left.len(),
{
    reveal_strlit("&amp;");
    reveal_strlit("&lt;");
    reveal_strlit("&gt;");
    reveal_strlit("&quot;");
    if left.len() == 0 || right.len() == 0 {
        assert(left =~= right);
    } else {
        let a = escaped_char(left[0]);
        let b = escaped_char(right[0]);
        let x = escaped(left.drop_first());
        let y = escaped(right.drop_first());
        assert((a + x)[0] == (b + y)[0]);
        assert(a.len() > 1 && b.len() > 1 ==> (a + x)[1] == (b + y)[1]);
        assert(left[0] == right[0]);
        assert(x =~= (a + x).skip(a.len() as int));
        assert(y =~= (b + y).skip(b.len() as int));
        escaping_loses_nothing(left.drop_first(), right.drop_first());
        assert(left =~= seq![left[0]] + left.drop_first());
        assert(right =~= seq![right[0]] + right.drop_first());
    }
}

/// The text with its markup characters replaced by entities.
pub fn escape_html(input: &str) -> (output: String)
    ensures
        output@ == escaped(input@),
{
    broadcast use vstd::string::group_string_axioms;

    let mut output = String::new();
    let mut characters = input.chars();
    let ghost mut read: int = 0;
    assert(input@.skip(0) =~= input@);
    loop
        invariant
            0 <= read <= input@.len(),
            characters.remaining() == input@.skip(read),
            output@ + escaped(input@.skip(read)) == escaped(input@),
        decreases input@.len() - read,
    {
        let ghost before = output@;
        let ghost rest = input@.skip(read);
        match characters.next() {
            Some(character) => {
                if character == '&' {
                    output.append("&amp;");
                } else if character == '<' {
                    output.append("&lt;");
                } else if character == '>' {
                    output.append("&gt;");
                } else if character == '"' {
                    output.append("&quot;");
                } else {
                    output.push(character);
                }
                assert(output@ =~= before + escaped_char(character));
                assert(before + (escaped_char(character) + escaped(rest.drop_first()))
                    =~= output@ + escaped(rest.drop_first()));
                assert(rest.drop_first() =~= input@.skip(read + 1));
                proof {
                    read = read + 1;
                }
            },
            None => {
                assert(output@ + escaped(rest) =~= output@);
                return output;
            },
        }
    }
}

/// The page that reports a status and a message. The message is escaped.
pub fn error_page(status: u16, reason: &str, message: &str) -> (page: String)
    ensures
        page@ == error_page_text(status, reason@, message@),
{
    let code = decimal_text(status);
    let mut heading = code;
    heading.append(" ");
    heading.append(reason);
    let mut page = String::new();
    page.append(ERROR_PAGE_START);
    page.append(heading.as_str());
    page.append(ERROR_PAGE_STYLE);
    page.append(heading.as_str());
    page.append(ERROR_PAGE_MESSAGE);
    page.append(escape_html(message).as_str());
    page.append(ERROR_PAGE_END);
    assert(page@ =~= error_page_text(status, reason@, message@));
    page
}

} // verus!
