use vstd::prelude::*;

verus! {

/// The validity grammar of the NVD naming schema: structured names only.
pub const NVD_CPE23_VALID_REGEX_STR: &'static str = r###"cpe:2\.3:[aho\*\-](:(((\?*|\*?)([a-zA-Z0-9\-\._]|(\\[\\\*\?!"#$$%&'\(\)\+,/:;<=>@\[\]\^`\{\|}~]))+(\?*|\*?))|[\*\-])){5}(:(([a-zA-Z]{2,3}(-([a-zA-Z]{2}|[0-9]{3}))?)|[\*\-]))(:(((\?*|\*?)([a-zA-Z0-9\-\._]|(\\[\\\*\?!"#$$%&'\(\)\+,/:;<=>@\[\]\^`\{\|}~]))+(\?*|\*?))|[\*\-])){4}"###;

/// The validity grammar of the CVE record schema: structured names, and legacy
/// slash-delimited names too.
pub const CVE_CPE23_VALID_REGEX_STR: &'static str = r###"([c][pP][eE]:/[AHOaho]?(:[A-Za-z0-9._\-~%]*){0,6})|(cpe:2\.3:[aho*\-](:(((\?*|\*?)([a-zA-Z0-9\-._]|(\\[\\*?!"#$%&'()+,/:;<=>@\[\]\^`{|}~]))+(\?*|\*?))|[*\-])){5}(:(([a-zA-Z]{2,3}(-([a-zA-Z]{2}|[0-9]{3}))?)|[*\-]))(:(((\?*|\*?)([a-zA-Z0-9\-._]|(\\[\\*?!"#$%&'()+,/:;<=>@\[\]\^`{|}~]))+(\?*|\*?))|[*\-])){4})"###;

#[verifier::external_type_specification]
#[verifier::external_body]
pub struct ExRegex(regex::Regex);

/// Whether the regular expression `pattern` matches somewhere in `text`.
pub uninterp spec fn regex_matches(pattern: Seq<char>, text: Seq<char>) -> bool;

/// Whether the regex engine accepts `pattern`: it is valid and within the size limit.
pub uninterp spec fn regex_compiles(pattern: Seq<char>) -> bool;

/// Which of the two validity grammars to check names against.
#[derive(Debug, Clone, Copy, PartialEq, Eq, Structural)]
pub enum GrammarChoice {
    /// Structured names only.
    Nvd,
    /// Structured or legacy names.
    Cve,
}

/// The pattern text of a grammar.
pub open spec fn grammar_pattern(choice: GrammarChoice) -> Seq<char> {
    match choice {
        GrammarChoice::Nvd => NVD_CPE23_VALID_REGEX_STR@,
        GrammarChoice::Cve => CVE_CPE23_VALID_REGEX_STR@,
    }
}

/// A compiled validity grammar, with the pattern it was compiled from. Only
/// `compile` builds one, so the two always agree.
pub struct CpeGrammar {
    pattern: String,
    re: regex::Regex,
}

impl CpeGrammar {
    /// The pattern the grammar was compiled from.
    pub closed spec fn pattern(&self) -> Seq<char> {
        self.pattern@
    }

    /// Compiles the chosen grammar; `None` if the regex engine refuses it.
    pub fn new(choice: GrammarChoice) -> (r: Option<CpeGrammar>)
        ensures
            r is Some <==> regex_compiles(grammar_pattern(choice)),
            r matches Some(g) ==> g.pattern() == grammar_pattern(choice),
    {
        match choice {
            GrammarChoice::Nvd => compile(NVD_CPE23_VALID_REGEX_STR),
            GrammarChoice::Cve => compile(CVE_CPE23_VALID_REGEX_STR),
        }
    }

    /// Whether the grammar matches somewhere in `text`.
    pub fn is_match(&self, text: &str) -> (r: bool)
        ensures
            r == regex_matches(self.pattern(), text@),
    {
        grammar_is_match(self, text)
    }
}

/// Relies on regex::Regex::new: compiles `pattern`, or fails on an invalid pattern
/// or one over the size limit. The grammar keeps the pattern beside the regex.
#[verifier::external_body]
fn compile(pattern: &str) -> (r: Option<CpeGrammar>)
    ensures
        r is Some <==> regex_compiles(pattern@),
        r matches Some(g) ==> g.pattern() == pattern@,
{
    match regex::Regex::new(pattern) {
        Ok(re) => Some(CpeGrammar { pattern: pattern.to_string(), re }),
        Err(_) => None,
    }
}

/// Relies on regex::Regex::is_match: true if and only if the regex matches
/// anywhere in `text`. The regex was compiled from `g.pattern()` by `compile`.
#[verifier::external_body]
fn grammar_is_match(g: &CpeGrammar, text: &str) -> (r: bool)
    ensures
        r == regex_matches(g.pattern(), text@),
{
    g.re.is_match(text)
}

} // verus!
