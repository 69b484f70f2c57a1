//! Preparing the text of a grammar document before it is parsed.
use vstd::prelude::*;
use vstd::string::*;
use crate::load::GrammarLoadError;

verus! {

#[verifier::external_type_specification]
#[verifier::external_body]
pub struct ExJsonError(serde_json::Error);

/// The text once every match of the multi-line pattern `^\s*//.*` has been
/// replaced by a line break. Since `\s` also matches line breaks, a match
/// takes in the blank lines before a comment line too.
pub uninterp spec fn comment_lines_blanked(text: Seq<char>) -> Seq<char>;

/// The JSON document in `text` rendered with indentation, one member or
/// element per line, as serde_json prints a parsed value.
pub uninterp spec fn pretty_json_text(text: Seq<char>) -> Seq<char>;

/// Whether `text` is one JSON document that serde_json accepts: well-formed,
/// and nested no deeper than its recursion limit.
pub uninterp spec fn is_json_document(text: Seq<char>) -> bool;

/// Relies on regex::Regex::replace_all with the multi-line pattern
/// `^\s*//.*` and the replacement `"\n"`: the result depends on the text
/// alone, and a text without `//` has nothing to replace.
#[verifier::external_body]
fn replace_comment_lines(text: &str) -> (r: String)
    ensures
        r@ == comment_lines_blanked(text@),
        text@.len() == 0 ==> r@.len() == 0,
{
    let pattern = regex::RegexBuilder::new("^\\s*//.*").multi_line(true).build().unwrap();
    pattern.replace_all(text, "\n").into_owned()
}

/// Relies on serde_json::from_str into serde_json::Value, then
/// serde_json::to_string_pretty of that value: parsing succeeds exactly on a
/// JSON document, and rendering a `Value` (string keys only, written into
/// memory) cannot fail. The text depends on the input text alone.
#[verifier::external_body]
fn pretty_json(text: &str) -> (r: Result<String, serde_json::Error>)
    ensures
        r is Ok <==> is_json_document(text@),
        r matches Ok(s) ==> s@ == pretty_json_text(text@),
{
    match serde_json::from_str::<serde_json::Value>(text) {
        Ok(value) => serde_json::to_string_pretty(&value),
        Err(e) => Err(e),
    }
}

/// Blanks the comment lines of a grammar document so that a JSON parser
/// accepts it.
pub fn strip_json_comments(grammar_json: &str) -> (r: String)
    ensures
        r@ == comment_lines_blanked(grammar_json@),
{
    replace_comment_lines(grammar_json)
}

/// Re-renders the JSON document printed by a grammar's script, pretty and
/// ending in a line break. Text that is not a JSON document is refused.
pub fn normalize_grammar_json(document: &str) -> (r: Result<String, GrammarLoadError>)
    ensures
        !is_json_document(document@) ==> r == Err::<String, GrammarLoadError>(
            GrammarLoadError::InvalidJson,
        ),
        is_json_document(document@) ==> r is Ok,
        r matches Ok(s) ==> is_json_document(document@) && s@ == pretty_json_text(document@) + seq![
            '\n',
        ],
{
    match pretty_json(document) {
        Ok(text) => {
            let ghost before = text@;
            let mut out = text;
            out.append("\n");
            proof {
                reveal_strlit("\n");
                assert(out@ == before + seq!['\n']);
            }
            Ok(out)
        },
        Err(_) => Err(GrammarLoadError::InvalidJson),
    }
}

} // verus!
