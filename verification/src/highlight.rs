//! Syntax highlighting of code blocks with syntect, as HTML with classes: the first line of a
//! code block names its language, the lines after it are the code.
use vstd::prelude::*;

use crate::logseq::attrs::trimmed;
use crate::render::RenderError;
use crate::roam_edn::trim_text;
use syntect::parsing::SyntaxSet;

verus! {

#[verifier::external_type_specification]
#[verifier::external_body]
pub struct ExSyntaxSet(SyntaxSet);

/// What syntect makes of code in a language, with the default syntaxes and a plain text
/// syntax for languages it does not know: HTML whose classes carry the prefix, if there is
/// one; nothing when it fails.
pub uninterp spec fn highlighted(class_prefix: Option<Seq<char>>, language: Seq<char>, body: Seq<char>) -> Option<Seq<char>>;

/// syntect's default syntaxes, with a plain text syntax added.
pub struct Highlighter {
    syntax_set: SyntaxSet,
    class_prefix: Option<&'static str>,
}

impl Highlighter {
    /// The prefix of the classes in the HTML it makes.
    pub closed spec fn prefix(&self) -> Option<Seq<char>> {
        match self.class_prefix {
            Some(p) => Some(p@),
            None => None,
        }
    }

    /// A highlighter whose classes carry `class_prefix`, if there is one.
    pub fn new(class_prefix: Option<&'static str>) -> (r: Highlighter)
        ensures
            r.prefix() == (match class_prefix {
                Some(p) => Some(p@),
                None => None::<Seq<char>>,
            }),
    {
        Highlighter { syntax_set: default_syntaxes(), class_prefix }
    }

    /// The HTML for a code block (see `highlight_spec`).
    pub fn highlight(&self, text: &str) -> (r: Result<String, RenderError>)
        ensures
            match highlight_spec(self.prefix(), text@) {
                Some(h) => r matches Ok(s) && s@ == h,
                None => r == Err::<String, RenderError>(RenderError::Highlight),
            },
    {
        let v = crate::chars::to_chars(text);
        let n = v.len();
        let mut k: usize = 0;
        while k < n && v[k] != '\n'
            invariant
                k <= n,
                n == v@.len(),
                v@ == text@,
                forall|j: int| 0 <= j < k ==> v@[j] != '\n',
            decreases n - k,
        {
            k = k + 1;
        }
        proof {
            text@.index_of_first_ensures('\n');
        }
        let (first, body) = if k < n {
            proof {
                assert(text@.contains('\n'));
                let idx = text@.index_of_first('\n').unwrap();
                if idx < k {
                    assert(v@[idx] != '\n');
                } else if idx > k {
                    assert(text@[k as int] != '\n');
                }
            }
            (crate::chars::string_of(&v, 0, k + 1), crate::chars::string_of(&v, k + 1, n))
        } else {
            proof {
                if text@.contains('\n') {
                    let j = choose|j: int| 0 <= j < text@.len() && text@[j] == '\n';
                    assert(v@[j] != '\n');
                }
                assert(v@.subrange(0, n as int) =~= text@);
            }
            (crate::chars::string_of(&v, 0, n), String::new())
        };
        let language = trim_text(&first);
        match syntect_html(self, language.as_str(), body.as_str()) {
            Some(h) => Ok(h),
            None => Err(RenderError::Highlight),
        }
    }
}

/// The language of a code block: its first line, trimmed.
pub open spec fn code_language(text: Seq<char>) -> Seq<char> {
    match text.index_of_first('\n') {
        Some(k) => trimmed(text.take(k + 1)),
        None => trimmed(text),
    }
}

/// The code of a code block: the lines after the first.
pub open spec fn code_body(text: Seq<char>) -> Seq<char> {
    match text.index_of_first('\n') {
        Some(k) => text.skip(k + 1),
        None => Seq::empty(),
    }
}

/// The HTML for a code block: its code highlighted in its language.
pub open spec fn highlight_spec(class_prefix: Option<Seq<char>>, text: Seq<char>) -> Option<Seq<char>> {
    highlighted(class_prefix, code_language(text), code_body(text))
}

/// `SyntaxSet::load_defaults_newlines` of syntect, with `add_plain_text_syntax`.
#[verifier::external_body]
fn default_syntaxes() -> SyntaxSet {
    let mut builder = SyntaxSet::load_defaults_newlines().into_builder();
    builder.add_plain_text_syntax();
    builder.build()
}

/// syntect's `ClassedHTMLGenerator` on `body`, line by line, with the syntax that
/// `find_syntax_by_token` gives for `language` or else the plain text syntax, and classes
/// spaced and carrying the highlighter's prefix; nothing when a line fails. The contract names
/// the result and claims nothing more of it.
#[verifier::external_body]
fn syntect_html(h: &Highlighter, language: &str, body: &str) -> (r: Option<String>)
    ensures
        match r {
            Some(s) => highlighted(h.prefix(), language@, body@) == Some(s@),
            None => highlighted(h.prefix(), language@, body@) is None,
        },
{
    let set = &h.syntax_set;
    let syntax = set.find_syntax_by_token(language).unwrap_or_else(|| set.find_syntax_plain_text());
    let style = match h.class_prefix {
        Some(prefix) => syntect::html::ClassStyle::SpacedPrefixed { prefix },
        None => syntect::html::ClassStyle::Spaced,
    };
    let mut generator = syntect::html::ClassedHTMLGenerator::new_with_class_style(syntax, set, style);
    for line in syntect::util::LinesWithEndings::from(body) {
        generator.parse_html_for_line_which_includes_newline(line).ok()?;
    }
    Some(generator.finalize())
}

} // verus!
