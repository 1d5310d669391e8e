//! A light reading of JavaScript: whether code relies on the globals or the
//! return convention of n8n's code nodes.
//!
//! Strings and comments are skipped, the expressions inside template literals
//! are read, and `return` matters only outside a function body: one that a
//! `function`, an arrow or the parameters of a method begin.
use vstd::prelude::*;
use vstd::slice::slice_subrange;

use crate::text::{chars_of, same, text_of};

verus! {

pub open spec fn is_word_start(c: char) -> bool {
    'a' <= c <= 'z' || 'A' <= c <= 'Z' || c == '_' || c == '$'
}

pub open spec fn is_word_char(c: char) -> bool {
    is_word_start(c) || '0' <= c <= '9'
}

/// The smaller of a position and the length of the source.
pub open spec fn clip(i: int, len: nat) -> int {
    if i <= len {
        i
    } else {
        len as int
    }
}

/// The character after position `i` is `c`.
pub open spec fn next_is(s: Seq<char>, i: int, c: char) -> bool {
    i + 1 < s.len() && s[i + 1] == c
}

/// The first line break at or after `i`, or the end.
pub open spec fn line_end(s: Seq<char>, i: int) -> int
    decreases s.len() - i,
{
    if i >= s.len() || s[i] == '\n' {
        i
    } else {
        line_end(s, i + 1)
    }
}

/// Just past the first `*/` at or after `i`, or the end.
pub open spec fn comment_end(s: Seq<char>, i: int) -> int
    decreases s.len() - i,
{
    if i + 1 >= s.len() {
        s.len() as int
    } else if s[i] == '*' && s[i + 1] == '/' {
        i + 2
    } else {
        comment_end(s, i + 1)
    }
}

/// Just past the `quote` that closes a string whose inside begins at `i`, or
/// the end. A backslash takes the next character with it.
pub open spec fn quoted_end(s: Seq<char>, i: int, quote: char) -> int
    decreases s.len() - i,
{
    if i >= s.len() {
        i
    } else if s[i] == '\\' {
        quoted_end(s, clip(i + 2, s.len()), quote)
    } else if s[i] == quote {
        i + 1
    } else {
        quoted_end(s, i + 1, quote)
    }
}

/// The `}` that closes a template expression with `depth` open braces, or the
/// end.
pub open spec fn expression_end(s: Seq<char>, i: int, depth: nat) -> int
    decreases s.len() - i,
{
    if i < 0 || i >= s.len() {
        s.len() as int
    } else if s[i] == '\'' || s[i] == '"' || s[i] == '`' {
        proof {
            lemma_quoted_end(s, i + 1, s[i]);
        }
        expression_end(s, quoted_end(s, i + 1, s[i]), depth)
    } else if s[i] == '{' {
        expression_end(s, i + 1, depth + 1)
    } else if s[i] == '}' {
        if depth <= 1 {
            i
        } else {
            expression_end(s, i + 1, (depth - 1) as nat)
        }
    } else {
        expression_end(s, i + 1, depth)
    }
}

/// Just past the backtick that closes a template whose inside begins at `i`,
/// or the end.
pub open spec fn template_end(s: Seq<char>, i: int) -> int
    decreases s.len() - i,
{
    if i < 0 || i >= s.len() {
        s.len() as int
    } else if s[i] == '`' {
        i + 1
    } else if s[i] == '\\' {
        template_end(s, clip(i + 2, s.len()))
    } else if s[i] == '$' && next_is(s, i, '{') {
        proof {
            lemma_expression_end(s, i + 2, 1);
        }
        template_end(s, clip(expression_end(s, i + 2, 1) + 1, s.len()))
    } else {
        template_end(s, i + 1)
    }
}

/// The end of the word that begins before `i`.
pub open spec fn word_end(s: Seq<char>, i: int) -> int
    decreases s.len() - i,
{
    if i < s.len() && is_word_char(s[i]) {
        word_end(s, i + 1)
    } else {
        i
    }
}

/// A character that separates tokens and is none itself.
pub open spec fn is_gap(c: char) -> bool {
    c == ' ' || c == '\t' || c == '\n' || c == '\r'
}

/// The words whose parentheses are followed by a plain block.
pub open spec fn is_control(word: Seq<char>) -> bool {
    ||| word == "if"@
    ||| word == "for"@
    ||| word == "while"@
    ||| word == "switch"@
    ||| word == "catch"@
    ||| word == "with"@
    ||| word == "await"@
}

/// The words that a value follows, so that a brace behind one opens an object.
pub open spec fn wants_value(word: Seq<char>) -> bool {
    ||| word == "return"@
    ||| word == "throw"@
    ||| word == "yield"@
    ||| word == "await"@
    ||| word == "case"@
    ||| word == "default"@
    ||| word == "in"@
    ||| word == "of"@
    ||| word == "new"@
    ||| word == "typeof"@
    ||| word == "void"@
    ||| word == "delete"@
    ||| word == "instanceof"@
}

/// The characters that a value follows, whatever they stand in.
pub open spec fn is_operator(c: char) -> bool {
    ||| c == '='
    ||| c == ','
    ||| c == '['
    ||| c == '?'
    ||| c == '!'
    ||| c == '&'
    ||| c == '|'
    ||| c == '+'
    ||| c == '-'
    ||| c == '*'
    ||| c == '/'
    ||| c == '%'
    ||| c == '<'
    ||| c == '>'
    ||| c == '~'
    ||| c == '^'
    ||| c == '.'
}

/// The characters that no head of a class goes on behind.
pub open spec fn ends_head(c: char) -> bool {
    c == ':' || c == ',' || c == ';' || c == '='
}

/// What a pair of braces holds.
#[derive(Clone, Copy, PartialEq, Eq, Structural)]
pub enum Scope {
    /// The statements of a plain block.
    Block,
    /// The body of a function.
    Function,
    /// The members of a class, or of an object.
    Members,
}

/// What has been opened so far, and what the last token was.
#[verifier::ext_equal]
pub struct Nesting {
    /// The open braces, outermost first.
    pub scopes: Seq<Scope>,
    /// The open parentheses: whether each holds the parameters of a method.
    pub parens: Seq<bool>,
    /// The heads whose braces have not been opened: whether each is that of a
    /// class and not of a function, and how many parentheses were open at it.
    pub heads: Seq<(bool, nat)>,
    /// The last token ends a head: an arrow, or the parameters of a method.
    pub headed: bool,
    /// The last token can be the name of a method.
    pub named: bool,
    /// A value follows the last token.
    pub wanting: bool,
}

pub open spec fn top_level() -> Nesting {
    Nesting {
        scopes: Seq::empty(),
        parens: Seq::empty(),
        heads: Seq::empty(),
        headed: false,
        named: false,
        wanting: false,
    }
}

/// Some open pair of braces is the body of a function.
pub open spec fn in_function(scopes: Seq<Scope>) -> bool {
    exists|k: int| 0 <= k < scopes.len() && #[trigger] scopes[k] == Scope::Function
}

/// The innermost braces hold the members of a class or of an object.
pub open spec fn in_members(scopes: Seq<Scope>) -> bool {
    scopes.len() > 0 && scopes.last() == Scope::Members
}

impl Nesting {
    /// After a token that opens and closes nothing.
    pub open spec fn token(self, named: bool, wanting: bool) -> Nesting {
        Nesting { headed: false, named, wanting, ..self }
    }

    /// After a word that is neither `function` nor `class`. Among members every
    /// word is a name.
    pub open spec fn word(self, word: Seq<char>) -> Nesting {
        self.token(!is_control(word) || in_members(self.scopes), wants_value(word))
    }

    pub open spec fn arrow(self) -> Nesting {
        Nesting { headed: true, named: false, wanting: true, ..self }
    }

    /// After `function`, or `class`.
    pub open spec fn head(self, class: bool) -> Nesting {
        Nesting { heads: self.heads.push((class, self.parens.len())), ..self.token(false, false) }
    }

    /// The latest head is that of a class, outside the same parentheses.
    pub open spec fn in_class_head(self) -> bool {
        self.heads.len() > 0 && self.heads.last() == (true, self.parens.len())
    }

    /// After a character that is no part of a word and opens and closes no
    /// scope.
    pub open spec fn sign(self, c: char) -> Nesting {
        Nesting {
            heads: if ends_head(c) && self.in_class_head() {
                self.heads.drop_last()
            } else {
                self.heads
            },
            ..self.token(c == ']', is_operator(c) || (c == ':' && in_members(self.scopes)))
        }
    }

    /// A method is declared among the members of a class or of an object only;
    /// anywhere else the parentheses behind a name are a call.
    pub open spec fn open_paren(self) -> Nesting {
        Nesting {
            parens: self.parens.push(self.named && in_members(self.scopes)),
            ..self.token(false, true)
        }
    }

    pub open spec fn close_paren(self) -> Nesting {
        if self.parens.len() == 0 {
            self.token(false, false)
        } else {
            Nesting {
                parens: self.parens.drop_last(),
                headed: self.parens.last(),
                ..self.token(false, false)
            }
        }
    }

    /// What an opening brace opens: what the head read outside the same
    /// parentheses declares, the body of the head right before it, an object
    /// where a value is due, and else a plain block.
    pub open spec fn opens(self) -> Scope {
        if self.heads.len() > 0 && self.heads.last().1 == self.parens.len() {
            if self.heads.last().0 {
                Scope::Members
            } else {
                Scope::Function
            }
        } else if self.headed {
            Scope::Function
        } else if self.wanting {
            Scope::Members
        } else {
            Scope::Block
        }
    }

    pub open spec fn open_brace(self) -> Nesting {
        Nesting {
            scopes: self.scopes.push(self.opens()),
            heads: if self.heads.len() > 0 && self.heads.last().1 == self.parens.len() {
                self.heads.drop_last()
            } else {
                self.heads
            },
            ..self.token(false, false)
        }
    }

    pub open spec fn close_brace(self) -> Nesting {
        Nesting {
            scopes: if self.scopes.len() == 0 {
                self.scopes
            } else {
                self.scopes.drop_last()
            },
            heads: if self.in_class_head() {
                self.heads.drop_last()
            } else {
                self.heads
            },
            ..self.token(false, false)
        }
    }
}

/// The words that name n8n's runtime globals.
pub open spec fn is_n8n_global(word: Seq<char>) -> bool {
    ||| word == "$json"@
    ||| word == "$input"@
    ||| word == "$node"@
    ||| word == "items"@
}

/// Some expression inside the template whose inside goes on at `i` uses n8n's
/// conventions.
pub open spec fn template_uses(s: Seq<char>, i: int) -> bool
    decreases s.len(), s.len() - i, 0nat,
{
    if i < 0 || i >= s.len() || s[i] == '`' {
        false
    } else if s[i] == '\\' {
        template_uses(s, clip(i + 2, s.len()))
    } else if s[i] == '$' && next_is(s, i, '{') {
        let end = expression_end(s, i + 2, 1);
        proof {
            lemma_expression_end(s, i + 2, 1);
        }
        uses_from(s.subrange(i + 2, end), 0, top_level()) || template_uses(
            s,
            clip(end + 1, s.len()),
        )
    } else {
        template_uses(s, i + 1)
    }
}

/// The code from position `i` on, with `nest` open, uses n8n's conventions: it
/// names one of n8n's globals, or returns outside a function body.
pub open spec fn uses_from(s: Seq<char>, i: int, nest: Nesting) -> bool
    decreases s.len(), s.len() - i, 1nat,
{
    if i < 0 || i >= s.len() {
        false
    } else {
        let c = s[i];
        if c == '/' && next_is(s, i, '/') {
            proof {
                lemma_line_end(s, i + 2);
            }
            uses_from(s, line_end(s, i + 2), nest)
        } else if c == '/' && next_is(s, i, '*') {
            proof {
                lemma_comment_end(s, i + 2);
            }
            uses_from(s, comment_end(s, i + 2), nest)
        } else if c == '\'' || c == '"' {
            proof {
                lemma_quoted_end(s, i + 1, c);
            }
            uses_from(s, quoted_end(s, i + 1, c), nest.token(true, false))
        } else if c == '`' {
            proof {
                lemma_template_end(s, i + 1);
            }
            template_uses(s, i + 1) || uses_from(
                s,
                template_end(s, i + 1),
                nest.token(false, false),
            )
        } else if c == '=' && next_is(s, i, '>') {
            uses_from(s, i + 2, nest.arrow())
        } else if c == '(' {
            uses_from(s, i + 1, nest.open_paren())
        } else if c == ')' {
            uses_from(s, i + 1, nest.close_paren())
        } else if c == '{' {
            uses_from(s, i + 1, nest.open_brace())
        } else if c == '}' {
            uses_from(s, i + 1, nest.close_brace())
        } else if is_word_start(c) {
            let end = word_end(s, i + 1);
            let word = s.subrange(i, end);
            proof {
                lemma_word_end(s, i + 1);
            }
            if word == "function"@ || word == "class"@ {
                uses_from(s, end, nest.head(word == "class"@))
            } else if is_n8n_global(word) || (word == "return"@ && !in_function(nest.scopes)) {
                true
            } else {
                uses_from(s, end, nest.word(word))
            }
        } else if is_gap(c) {
            uses_from(s, i + 1, nest)
        } else {
            uses_from(s, i + 1, nest.sign(c))
        }
    }
}

pub proof fn lemma_line_end(s: Seq<char>, i: int)
    requires
        0 <= i,
    ensures
        i <= line_end(s, i),
        i <= s.len() ==> line_end(s, i) <= s.len(),
    decreases s.len() - i,
{
    if !(i >= s.len() || s[i] == '\n') {
        lemma_line_end(s, i + 1);
    }
}

pub proof fn lemma_quoted_end(s: Seq<char>, i: int, quote: char)
    requires
        0 <= i <= s.len(),
    ensures
        i <= quoted_end(s, i, quote) <= s.len(),
    decreases s.len() - i,
{
    if i >= s.len() {
    } else if s[i] == '\\' {
        lemma_quoted_end(s, clip(i + 2, s.len()), quote);
    } else if s[i] != quote {
        lemma_quoted_end(s, i + 1, quote);
    }
}

pub proof fn lemma_expression_end(s: Seq<char>, i: int, depth: nat)
    requires
        0 <= i <= s.len(),
    ensures
        i <= expression_end(s, i, depth) <= s.len(),
    decreases s.len() - i,
{
    if i >= s.len() {
    } else if s[i] == '\'' || s[i] == '"' || s[i] == '`' {
        lemma_quoted_end(s, i + 1, s[i]);
        lemma_expression_end(s, quoted_end(s, i + 1, s[i]), depth);
    } else if s[i] == '{' {
        lemma_expression_end(s, i + 1, depth + 1);
    } else if s[i] == '}' {
        if depth > 1 {
            lemma_expression_end(s, i + 1, (depth - 1) as nat);
        }
    } else {
        lemma_expression_end(s, i + 1, depth);
    }
}

pub proof fn lemma_comment_end(s: Seq<char>, i: int)
    requires
        0 <= i <= s.len(),
    ensures
        i <= comment_end(s, i) <= s.len(),
    decreases s.len() - i,
{
    if i + 1 < s.len() && !(s[i] == '*' && s[i + 1] == '/') {
        lemma_comment_end(s, i + 1);
    }
}

pub proof fn lemma_template_end(s: Seq<char>, i: int)
    requires
        0 <= i <= s.len(),
    ensures
        i <= template_end(s, i) <= s.len(),
    decreases s.len() - i,
{
    if i >= s.len() || s[i] == '`' {
    } else if s[i] == '\\' {
        lemma_template_end(s, clip(i + 2, s.len()));
    } else if s[i] == '$' && next_is(s, i, '{') {
        lemma_expression_end(s, i + 2, 1);
        lemma_template_end(s, clip(expression_end(s, i + 2, 1) + 1, s.len()));
    } else {
        lemma_template_end(s, i + 1);
    }
}

pub proof fn lemma_word_end(s: Seq<char>, i: int)
    requires
        0 <= i <= s.len(),
    ensures
        i <= word_end(s, i) <= s.len(),
    decreases s.len() - i,
{
    if i < s.len() && is_word_char(s[i]) {
        lemma_word_end(s, i + 1);
    }
}

fn skip_line(s: &[char], from: usize) -> (end: usize)
    requires
        from <= s.len(),
    ensures
        end == line_end(s@, from as int),
        from <= end <= s.len(),
{
    let mut i: usize = from;
    while i < s.len() && s[i] != '\n'
        invariant
            from <= i <= s.len(),
            line_end(s@, i as int) == line_end(s@, from as int),
        decreases s.len() - i,
    {
        i = i + 1;
    }
    i
}

fn skip_comment(s: &[char], from: usize) -> (end: usize)
    requires
        from <= s.len(),
    ensures
        end == comment_end(s@, from as int),
        from <= end <= s.len(),
{
    let mut i: usize = from;
    while i < s.len() && i + 1 < s.len()
        invariant
            from <= i <= s.len(),
            comment_end(s@, i as int) == comment_end(s@, from as int),
        decreases s.len() - i,
    {
        if s[i] == '*' && s[i + 1] == '/' {
            return i + 2;
        }
        i = i + 1;
    }
    s.len()
}

/// Skips a quoted string that begins at `start`: just past its closing quote,
/// or the end.
pub fn skip_quoted(s: &[char], start: usize, quote: char) -> (end: usize)
    requires
        start < s.len(),
    ensures
        end == quoted_end(s@, start + 1, quote),
        start < end <= s.len(),
{
    let mut i: usize = start + 1;
    while i < s.len()
        invariant
            start < i <= s.len(),
            quoted_end(s@, i as int, quote) == quoted_end(s@, start + 1, quote),
        decreases s.len() - i,
    {
        if s[i] == '\\' {
            i = if s.len() - i >= 2 {
                i + 2
            } else {
                s.len()
            };
        } else if s[i] == quote {
            return i + 1;
        } else {
            i = i + 1;
        }
    }
    i
}

/// The end of the template expression that begins at `start`: its closing
/// brace, or the end.
pub fn template_expression_end(s: &[char], start: usize) -> (end: usize)
    requires
        start <= s.len(),
    ensures
        end == expression_end(s@, start as int, 1),
        start <= end <= s.len(),
{
    let mut i: usize = start;
    let mut inner: usize = 0;
    while i < s.len()
        invariant
            start <= i <= s.len(),
            inner <= i - start,
            expression_end(s@, i as int, inner as nat + 1) == expression_end(s@, start as int, 1),
        decreases s.len() - i,
    {
        let c = s[i];
        if c == '\'' || c == '"' || c == '`' {
            i = skip_quoted(s, i, c);
        } else if c == '{' {
            inner = inner + 1;
            i = i + 1;
        } else if c == '}' {
            if inner == 0 {
                return i;
            }
            inner = inner - 1;
            i = i + 1;
        } else {
            i = i + 1;
        }
    }
    s.len()
}

fn skip_word(s: &[char], from: usize) -> (end: usize)
    requires
        from <= s.len(),
    ensures
        end == word_end(s@, from as int),
        from <= end <= s.len(),
{
    let mut i: usize = from;
    while i < s.len()
        invariant
            from <= i <= s.len(),
            word_end(s@, i as int) == word_end(s@, from as int),
        decreases s.len() - i,
    {
        let c = s[i];
        if !(('a' <= c && c <= 'z') || ('A' <= c && c <= 'Z') || c == '_' || c == '$' || ('0' <= c
            && c <= '9')) {
            return i;
        }
        i = i + 1;
    }
    i
}

/// Reads a template whose inside begins at `start`: whether one of its
/// expressions uses n8n's conventions, and where the template ends.
fn read_template(s: &[char], start: usize) -> (r: (bool, usize))
    requires
        0 < start <= s.len(),
    ensures
        r.0 == template_uses(s@, start as int),
        !r.0 ==> r.1 == template_end(s@, start as int) && start <= r.1 <= s.len(),
    decreases s.len(), 0nat,
{
    let mut i: usize = start;
    while i < s.len()
        invariant
            0 < start <= i <= s.len(),
            template_uses(s@, i as int) == template_uses(s@, start as int),
            template_end(s@, i as int) == template_end(s@, start as int),
        decreases s.len() - i,
    {
        if s[i] == '`' {
            return (false, i + 1);
        } else if s[i] == '\\' {
            i = if s.len() - i >= 2 {
                i + 2
            } else {
                s.len()
            };
        } else if s[i] == '$' && i + 1 < s.len() && s[i + 1] == '{' {
            let begin: usize = i + 2;
            let end = template_expression_end(s, begin);
            if uses_in(slice_subrange(s, begin, end)) {
                return (true, end);
            }
            i = if end < s.len() {
                end + 1
            } else {
                s.len()
            };
        } else {
            i = i + 1;
        }
    }
    (false, s.len())
}

fn controls(word: &str) -> (r: bool)
    ensures
        r == is_control(word@),
{
    same(word, "if") || same(word, "for") || same(word, "while") || same(word, "switch") || same(
        word,
        "catch",
    ) || same(word, "with") || same(word, "await")
}

fn asks_for_value(word: &str) -> (r: bool)
    ensures
        r == wants_value(word@),
{
    same(word, "return") || same(word, "throw") || same(word, "yield") || same(word, "await")
        || same(word, "case") || same(word, "default") || same(word, "in") || same(word, "of")
        || same(word, "new") || same(word, "typeof") || same(word, "void") || same(word, "delete")
        || same(word, "instanceof")
}

fn operates(c: char) -> (r: bool)
    ensures
        r == is_operator(c),
{
    c == '=' || c == ',' || c == '[' || c == '?' || c == '!' || c == '&' || c == '|' || c == '+'
        || c == '-' || c == '*' || c == '/' || c == '%' || c == '<' || c == '>' || c == '~' || c
        == '^' || c == '.'
}

/// What has been opened so far while code is read, and what the last token was.
struct Reader {
    scopes: Vec<Scope>,
    parens: Vec<bool>,
    heads: Vec<(bool, usize)>,
    headed: bool,
    named: bool,
    wanting: bool,
}

/// The heads, with their depths as numbers.
spec fn head_views(heads: Seq<(bool, usize)>) -> Seq<(bool, nat)> {
    Seq::new(heads.len(), |i: int| (heads[i].0, heads[i].1 as nat))
}

impl View for Reader {
    type V = Nesting;

    closed spec fn view(&self) -> Nesting {
        Nesting {
            scopes: self.scopes@,
            parens: self.parens@,
            heads: head_views(self.heads@),
            headed: self.headed,
            named: self.named,
            wanting: self.wanting,
        }
    }
}

impl Reader {
    fn new() -> (r: Self)
        ensures
            r@ == top_level(),
    {
        let r = Reader {
            scopes: Vec::new(),
            parens: Vec::new(),
            heads: Vec::new(),
            headed: false,
            named: false,
            wanting: false,
        };
        assert(r@ =~= top_level());
        r
    }

    fn among_members(&self) -> (r: bool)
        ensures
            r == in_members(self@.scopes),
    {
        let n: usize = self.scopes.len();
        n > 0 && self.scopes[n - 1] == Scope::Members
    }

    fn inside_function(&self) -> (r: bool)
        ensures
            r == in_function(self@.scopes),
    {
        let mut k: usize = 0;
        while k < self.scopes.len()
            invariant
                k <= self.scopes@.len(),
                forall|j: int| 0 <= j < k ==> #[trigger] self.scopes@[j] != Scope::Function,
            decreases self.scopes@.len() - k,
        {
            if self.scopes[k] == Scope::Function {
                assert(self@.scopes[k as int] == Scope::Function);
                return true;
            }
            k = k + 1;
        }
        false
    }

    fn token(&mut self, named: bool, wanting: bool)
        ensures
            final(self)@ == old(self)@.token(named, wanting),
    {
        self.headed = false;
        self.named = named;
        self.wanting = wanting;
        assert(self@ =~= old(self)@.token(named, wanting));
    }

    fn word(&mut self, word: &str)
        ensures
            final(self)@ == old(self)@.word(word@),
    {
        let named = !controls(word) || self.among_members();
        self.token(named, asks_for_value(word));
    }

    fn arrow(&mut self)
        ensures
            final(self)@ == old(self)@.arrow(),
    {
        self.headed = true;
        self.named = false;
        self.wanting = true;
        assert(self@ =~= old(self)@.arrow());
    }

    fn head(&mut self, class: bool)
        ensures
            final(self)@ == old(self)@.head(class),
    {
        let depth: usize = self.parens.len();
        self.heads.push((class, depth));
        self.token(false, false);
        assert(self@.heads =~= old(self)@.heads.push((class, depth as nat)));
        assert(self@ =~= old(self)@.head(class));
    }

    fn class_head(&self) -> (r: bool)
        ensures
            r == self@.in_class_head(),
    {
        let n: usize = self.heads.len();
        if n > 0 {
            assert(self@.heads.last() == (self.heads@[n - 1].0, self.heads@[n - 1].1 as nat));
        }
        n > 0 && self.heads[n - 1].0 && self.heads[n - 1].1 == self.parens.len()
    }

    fn drop_head(&mut self)
        requires
            old(self)@.heads.len() > 0,
        ensures
            final(self)@ == (Nesting { heads: old(self)@.heads.drop_last(), ..old(self)@ }),
    {
        self.heads.pop();
        assert(self@.heads =~= old(self)@.heads.drop_last());
        assert(self@ =~= (Nesting { heads: old(self)@.heads.drop_last(), ..old(self)@ }));
    }

    fn sign(&mut self, c: char)
        ensures
            final(self)@ == old(self)@.sign(c),
    {
        let wanting = operates(c) || (c == ':' && self.among_members());
        if (c == ':' || c == ',' || c == ';' || c == '=') && self.class_head() {
            self.drop_head();
        }
        self.token(c == ']', wanting);
        assert(self@ =~= old(self)@.sign(c));
    }

    fn open_paren(&mut self)
        ensures
            final(self)@ == old(self)@.open_paren(),
    {
        let method = self.named && self.among_members();
        self.parens.push(method);
        self.token(false, true);
        assert(self@ =~= old(self)@.open_paren());
    }

    fn close_paren(&mut self)
        ensures
            final(self)@ == old(self)@.close_paren(),
    {
        let closed = self.parens.pop();
        self.token(false, false);
        match closed {
            Some(method) => {
                self.headed = method;
            },
            None => {},
        }
        assert(self@ =~= old(self)@.close_paren());
    }

    fn open_brace(&mut self)
        ensures
            final(self)@ == old(self)@.open_brace(),
    {
        let n: usize = self.heads.len();
        let declared = n > 0 && self.heads[n - 1].1 == self.parens.len();
        if n > 0 {
            assert(self@.heads.last() == (self.heads@[n - 1].0, self.heads@[n - 1].1 as nat));
        }
        let scope = if declared {
            if self.heads[n - 1].0 {
                Scope::Members
            } else {
                Scope::Function
            }
        } else if self.headed {
            Scope::Function
        } else if self.wanting {
            Scope::Members
        } else {
            Scope::Block
        };
        if declared {
            self.drop_head();
        }
        self.scopes.push(scope);
        self.token(false, false);
        assert(self@ =~= old(self)@.open_brace());
    }

    fn close_brace(&mut self)
        ensures
            final(self)@ == old(self)@.close_brace(),
    {
        if self.class_head() {
            self.drop_head();
        }
        self.scopes.pop();
        self.token(false, false);
        assert(self@ =~= old(self)@.close_brace());
    }
}

fn uses_in(s: &[char]) -> (r: bool)
    ensures
        r == uses_from(s@, 0, top_level()),
    decreases s.len(), 1nat,
{
    let mut i: usize = 0;
    let mut nest = Reader::new();
    while i < s.len()
        invariant
            i <= s.len(),
            uses_from(s@, i as int, nest@) == uses_from(s@, 0, top_level()),
        decreases s.len() - i,
    {
        let c = s[i];
        if c == '/' && i + 1 < s.len() && s[i + 1] == '/' {
            i = skip_line(s, i + 2);
        } else if c == '/' && i + 1 < s.len() && s[i + 1] == '*' {
            i = skip_comment(s, i + 2);
        } else if c == '\'' || c == '"' {
            nest.token(true, false);
            i = skip_quoted(s, i, c);
        } else if c == '`' {
            let (uses, end) = read_template(s, i + 1);
            if uses {
                return true;
            }
            nest.token(false, false);
            i = end;
        } else if c == '=' && i + 1 < s.len() && s[i + 1] == '>' {
            nest.arrow();
            i = i + 2;
        } else if c == '(' {
            nest.open_paren();
            i = i + 1;
        } else if c == ')' {
            nest.close_paren();
            i = i + 1;
        } else if c == '{' {
            nest.open_brace();
            i = i + 1;
        } else if c == '}' {
            nest.close_brace();
            i = i + 1;
        } else if ('a' <= c && c <= 'z') || ('A' <= c && c <= 'Z') || c == '_' || c == '$' {
            let end = skip_word(s, i + 1);
            let word = text_of(slice_subrange(s, i, end));
            let class = same(word.as_str(), "class");
            if same(word.as_str(), "function") || class {
                nest.head(class);
            } else if same(word.as_str(), "$json") || same(word.as_str(), "$input") || same(
                word.as_str(),
                "$node",
            ) || same(word.as_str(), "items") || (same(word.as_str(), "return")
                && !nest.inside_function()) {
                return true;
            } else {
                nest.word(word.as_str());
            }
            i = end;
        } else if c == ' ' || c == '\t' || c == '\n' || c == '\r' {
            i = i + 1;
        } else {
            nest.sign(c);
            i = i + 1;
        }
    }
    false
}

/// Whether code looks like it relies on n8n's code-node globals or return
/// convention.
pub fn uses_n8n_code_globals(source: &str) -> (r: bool)
    ensures
        r == uses_from(source@, 0, top_level()),
{
    let chars = chars_of(source);
    uses_in(chars.as_slice())
}

} // verus!
