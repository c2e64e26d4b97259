use vstd::prelude::*;
use crate::lines::{filter_lines, filtered};
use crate::names::{compile_patterns, excluded_by, glob_compiles, is_excluded, name_excluded, ExclusionPattern};
use crate::render::{prompt_block, prompt_block_text, token_line, token_line_text};
use crate::tokens::{p50k_encode_len, Tokenizer};

verus! {

/// The text that stands in for the contents of a file that cannot be read.
pub open spec fn placeholder() -> Seq<char> {
    seq!['[', 'C', 'o', 'u', 'l', 'd', ' ', 'n', 'o', 't', ' ', 'r', 'e', 'a', 'd', ' ',
        'c', 'o', 'n', 't', 'e', 'n', 't', 's', ']']
}

/// The placeholder text for an unreadable file.
pub fn unreadable_placeholder() -> (r: String)
    ensures
        r@ == placeholder(),
{
    let r = String::from_str("[Could not read contents]");
    proof {
        reveal_strlit("[Could not read contents]");
    }
    assert(r@ =~= placeholder());
    r
}

/// How each surviving file is rendered.
pub enum Renderer {
    /// One line per file with the number of tokens in its filtered text.
    TokenCount(Tokenizer),
    /// One block per file with its name and its filtered text.
    Prompt,
}

/// A fatal condition met while handling one entry.
pub enum EntryError {
    /// The tokenizer reported an error on the filtered text.
    TokenizeFailed,
}

/// The fixed settings of one scan: the compiled exclusion patterns and the
/// skip substrings.
pub struct Scan {
    pub patterns: Vec<ExclusionPattern>,
    pub skips: Vec<String>,
}

/// The text of an entry: its contents, or the placeholder where they could
/// not be read.
pub open spec fn entry_text(contents: Option<&str>) -> Seq<char> {
    match contents {
        Some(c) => c@,
        None => placeholder(),
    }
}

impl Scan {
    pub open spec fn wf(&self) -> bool {
        forall|i: int| 0 <= i < self.patterns.len() ==> (#[trigger] self.patterns[i]).wf()
    }

    /// Compiles the exclusion patterns once; a pattern text that does not
    /// compile matches nothing.
    pub fn new(ignore_patterns: &Vec<String>, skip_substrings: Vec<String>) -> (r: Scan)
        ensures
            r.wf(),
            r.skips == skip_substrings,
            r.patterns.len() == ignore_patterns.len(),
            forall|i: int| 0 <= i < r.patterns.len() ==> ((#[trigger] r.patterns[i]) is Compiled <==> glob_compiles(ignore_patterns[i]@)),
            forall|name: Seq<char>| #[trigger] excluded_by(r.patterns@, name) == name_excluded(ignore_patterns.deep_view(), name),
    {
        let patterns = compile_patterns(ignore_patterns);
        Scan { patterns, skips: skip_substrings }
    }

    /// Whether the entry with base name `name` is excluded from the output.
    pub fn excludes(&self, name: &str) -> (r: bool)
        requires
            self.wf(),
        ensures
            r == excluded_by(self.patterns@, name@),
    {
        is_excluded(name, &self.patterns)
    }

    /// Renders the record of an entry that is not excluded: `name` is its
    /// base name and `contents` its text, `None` where it could not be read.
    pub fn render(&self, name: &str, contents: Option<&str>, renderer: &Renderer) -> (r: Result<String, EntryError>)
        ensures
            ({
                let f = filtered(entry_text(contents), self.skips.deep_view());
                match renderer {
                    Renderer::Prompt => r matches Ok(s) && s@ == prompt_block_text(name@, f),
                    Renderer::TokenCount(_) => match p50k_encode_len(f) {
                        Some(n) => r matches Ok(s) && s@ == token_line_text(name@, n),
                        None => r matches Err(EntryError::TokenizeFailed),
                    },
                }
            }),
    {
        let f = match contents {
            Some(c) => filter_lines(c, &self.skips),
            None => {
                let p = unreadable_placeholder();
                filter_lines(p.as_str(), &self.skips)
            },
        };
        match renderer {
            Renderer::Prompt => Ok(prompt_block(name, f.as_str())),
            Renderer::TokenCount(t) => match t.count(f.as_str()) {
                Some(n) => Ok(token_line(name, n)),
                None => Err(EntryError::TokenizeFailed),
            },
        }
    }
}

} // verus!
