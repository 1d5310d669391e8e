//! What holds of every foreign expression and every piece of foreign code: what is
//! rewritten, and what marks code as written for n8n.
use vstd::prelude::*;

use crate::adaptive::intake::recipe::jq_quoted;
use crate::catalog::n8n::expr::{
    config_warnings, entries_warnings, expression_inside, is_expression, items_warnings, jq_form,
    jq_steps, key_of, name_len, raw_warning, translated_text,
};
use crate::catalog::n8n::javascript::{
    comment_end, expression_end, in_function, is_word_char, is_word_start, line_end, quoted_end,
    template_end, template_uses, top_level, uses_from, word_end, Nesting, Scope,
};
use crate::json::JsonView;
use crate::model::graph::{addressable, is_name_char};
use crate::text::{
    is_white, lemma_occurs_last, lemma_occurs_on, lemma_trim_front, occurs_at, occurs_in, trim_back,
    trim_front, trimmed,
};
use crate::text_laws::{
    all_white, prefixes_are_taken_off_once, texts_are_read_up_to_a_stop,
    trimming_takes_the_blank_ends,
};

verus! {

proof fn lemma_name(name: Seq<char>, rest: Seq<char>)
    requires
        forall|i: int| 0 <= i < name.len() ==> is_name_char(#[trigger] name[i]),
        rest.len() == 0 || !is_name_char(rest[0]),
    ensures
        name_len(name + rest) == name.len(),
    decreases name.len(),
{
    if name.len() == 0 {
        assert(name + rest =~= rest);
    } else {
        let less = name.drop_first();
        assert forall|i: int| 0 <= i < less.len() implies is_name_char(#[trigger] less[i]) by {
            assert(less[i] == name[i + 1]);
        }
        lemma_name(less, rest);
        assert((name + rest)[0] == name[0]);
        assert((name + rest).drop_first() =~= less + rest);
    }
}

/// A step by name stays a step by that name.
pub proof fn named_steps_stay(name: Seq<char>, rest: Seq<char>)
    requires
        addressable(name),
        rest.len() == 0 || !is_name_char(rest[0]),
    ensures
        jq_steps(rest) matches Some(more) ==> jq_steps(seq!['.'] + name + rest) == Some(
            seq!['.'] + name + more,
        ),
        jq_steps(rest) is None ==> jq_steps(seq!['.'] + name + rest) is None,
        jq_steps(Seq::empty()) == Some(Seq::<char>::empty()),
{
    let path = seq!['.'] + name + rest;
    let inner = path.skip(1);
    assert(inner =~= name + rest);
    lemma_name(name, rest);
    assert(inner.take(name.len() as int) =~= name);
    assert(inner.skip(name.len() as int) =~= rest);
    assert(path[0] == '.');
    assert(inner[0] == name[0]);
}

/// A step by a quoted key becomes a step by name where the key can be written bare,
/// and is quoted for jq otherwise; either quote will do.
pub proof fn quoted_steps_become_fields(key: Seq<char>, quote: char, rest: Seq<char>)
    requires
        quote == '"' || quote == '\'',
        !key.contains(quote),
        !key.contains('\\'),
    ensures
        ({
            let path = seq!['[', quote] + key + (seq![quote] + (seq![']'] + rest));
            let field = if addressable(key) {
                key
            } else {
                jq_quoted(key)
            };
            &&& jq_steps(rest) matches Some(more) ==> jq_steps(path) == Some(
                seq!['.'] + field + more,
            )
            &&& jq_steps(rest) is None ==> jq_steps(path) is None
        }),
{
    let tail = seq![quote] + (seq![']'] + rest);
    let path = seq!['[', quote] + key + tail;
    let inner = path.skip(2);
    assert(inner =~= key + tail);
    let stops = seq![quote];
    assert(stops[0] == quote);
    assert forall|i: int| 0 <= i < key.len() implies !stops.contains(#[trigger] key[i]) by {
        if stops.contains(key[i]) {
            assert(key.contains(quote));
        }
    }
    texts_are_read_up_to_a_stop(key, quote, seq![']'] + rest, stops);
    assert(path[0] == '[' && path[1] == quote);
    assert(key_of(inner, quote) == key);
    let after = inner.skip(key.len() as int);
    assert(after =~= tail);
    assert(after[0] == quote && after[1] == ']');
    assert(after.skip(2) =~= rest);
}

proof fn lemma_whole(rest: Seq<char>)
    requires
        rest.len() > 0,
        rest.last() == '}',
    ensures
        trimmed("={{"@ + rest) == "={{"@ + rest,
        is_expression("={{"@ + rest),
{
    let raw = "={{"@ + rest;
    reveal_strlit("={{");
    reveal_strlit("=");
    reveal_strlit("{{");
    assert("={{"@.len() == 3 && "="@.len() == 1 && "{{"@.len() == 2);
    let none = Seq::<char>::empty();
    assert(none + raw + none =~= raw);
    assert(raw[0] == '=');
    assert(raw.last() == '}');
    trimming_takes_the_blank_ends(none, raw, none);
    assert(raw.subrange(0, 1) =~= "="@);
    assert(raw.subrange(1, 3) =~= "{{"@);
    assert(occurs_at(raw, "{{"@, 1));
}

proof fn lemma_inside(inside: Seq<char>)
    ensures
        expression_inside("={{"@ + (inside + "}}"@)) == Some(trimmed(inside)),
        is_expression("={{"@ + (inside + "}}"@)),
{
    let rest = inside + "}}"@;
    reveal_strlit("}}");
    assert("}}"@.len() == 2 && "}}"@[1] == '}');
    assert(rest.last() == '}');
    lemma_whole(rest);
    prefixes_are_taken_off_once("={{"@, rest, rest);
    assert(rest.subrange(rest.len() - "}}"@.len(), rest.len() as int) =~= "}}"@);
    assert(rest.take(rest.len() - "}}"@.len()) =~= inside);
}

/// An expression that is a path from `$json` becomes that path from the current
/// item, whatever space stands around it.
pub proof fn item_paths_are_rewritten(
    before: Seq<char>,
    path: Seq<char>,
    after: Seq<char>,
    steps: Seq<char>,
)
    requires
        all_white(before),
        all_white(after),
        trimmed("$json"@ + path) == "$json"@ + path,
        jq_steps(path) == Some(steps),
    ensures
        translated_text("={{"@ + (before + ("$json"@ + path) + after + "}}"@)) == "=.item"@ + steps,
{
    let core = "$json"@ + path;
    lemma_inside(before + core + after);
    lemma_core_ends(core);
    trimming_takes_the_blank_ends(before, core, after);
    prefixes_are_taken_off_once("$json"@, path, path);
}

proof fn lemma_core_ends(core: Seq<char>)
    requires
        trimmed(core) == core,
    ensures
        core.len() > 0 ==> !is_white(core[0]) && !is_white(core.last()),
{
    if core.len() > 0 {
        lemma_trim_front(core);
        let front = trim_front(core);
        lemma_back_shorter(front);
        assert(front.len() == core.len());
        if is_white(core[0]) {
            lemma_trim_front(core.drop_first());
            assert(false);
        }
        assert(front == core);
        if is_white(core.last()) {
            lemma_back_shorter(core.drop_last());
            assert(false);
        }
    }
}

proof fn lemma_back_shorter(s: Seq<char>)
    ensures
        trim_back(s).len() <= s.len(),
    decreases s.len(),
{
    if s.len() > 0 && is_white(s.last()) {
        lemma_back_shorter(s.drop_last());
    }
}

/// A warning about an expression names the node and the expression.
pub proof fn warnings_name_node_and_expression(raw: Seq<char>, node: Seq<char>)
    ensures
        occurs_in(raw_warning(raw, node), node),
        occurs_in(raw_warning(raw, node), raw),
{
    let w0 = "Node '"@;
    let w1 = w0 + node;
    let w2 = w1 + "' uses an n8n expression that was not automatically translated: "@;
    let w3 = w2 + raw;
    lemma_occurs_last(w0, node);
    lemma_occurs_on(w1, "' uses an n8n expression that was not automatically translated: "@, node);
    lemma_occurs_on(w2, raw, node);
    lemma_occurs_last(w2, raw);
}

/// A comment is passed over, to the end of its line or of its block.
pub proof fn comments_are_passed_over(s: Seq<char>, i: int, j: int, nest: Nesting)
    requires
        0 <= i,
        i + 2 <= j <= s.len(),
        s[i] == '/',
    ensures
        s[i + 1] == '/' && (j == s.len() || s[j] == '\n') && (forall|k: int|
            i + 2 <= k < j ==> s[k] != '\n') ==> uses_from(s, i, nest) == uses_from(s, j, nest),
        s[i + 1] == '*' && j + 1 < s.len() && s[j] == '*' && s[j + 1] == '/' && (forall|k: int|
            i + 2 <= k < j ==> !(s[k] == '*' && #[trigger] s[k + 1] == '/')) ==> uses_from(
            s,
            i,
            nest,
        ) == uses_from(s, j + 2, nest),
{
    if s[i + 1] == '/' && (j == s.len() || s[j] == '\n') && (forall|k: int|
        i + 2 <= k < j ==> s[k] != '\n') {
        lemma_line(s, i + 2, j);
    }
    if s[i + 1] == '*' && j + 1 < s.len() && s[j] == '*' && s[j + 1] == '/' && (forall|k: int|
        i + 2 <= k < j ==> !(s[k] == '*' && #[trigger] s[k + 1] == '/')) {
        lemma_comment(s, i + 2, j);
    }
}

proof fn lemma_line(s: Seq<char>, i: int, j: int)
    requires
        0 <= i <= j <= s.len(),
        j == s.len() || s[j] == '\n',
        forall|k: int| i <= k < j ==> s[k] != '\n',
    ensures
        line_end(s, i) == j,
    decreases j - i,
{
    if i < j {
        lemma_line(s, i + 1, j);
    }
}

proof fn lemma_comment(s: Seq<char>, i: int, j: int)
    requires
        0 <= i <= j,
        j + 1 < s.len(),
        s[j] == '*',
        s[j + 1] == '/',
        forall|k: int| i <= k < j ==> !(s[k] == '*' && #[trigger] s[k + 1] == '/'),
    ensures
        comment_end(s, i) == j + 2,
    decreases j - i,
{
    if i < j {
        assert(!(s[i] == '*' && s[i + 1] == '/'));
        lemma_comment(s, i + 1, j);
    }
}

proof fn lemma_quoted(s: Seq<char>, i: int, j: int, quote: char)
    requires
        0 <= i <= j < s.len(),
        s[j] == quote,
        quote != '\\',
        forall|k: int| i <= k < j ==> s[k] != quote && s[k] != '\\',
    ensures
        quoted_end(s, i, quote) == j + 1,
    decreases j - i,
{
    if i < j {
        lemma_quoted(s, i + 1, j, quote);
    }
}

/// What stands in quotes is passed over: nothing in it opens, closes or names
/// anything.
pub proof fn strings_are_passed_over(s: Seq<char>, i: int, j: int, nest: Nesting)
    requires
        0 <= i < j < s.len(),
        s[i] == '"' || s[i] == '\'',
        s[j] == s[i],
        forall|k: int| i < k < j ==> s[k] != s[i] && s[k] != '\\',
    ensures
        uses_from(s, i, nest) == uses_from(s, j + 1, nest.token(true, false)),
        nest.token(true, false).scopes == nest.scopes,
        nest.token(true, false).parens == nest.parens,
{
    lemma_quoted(s, i + 1, j, s[i]);
}

proof fn lemma_word(s: Seq<char>, i: int, j: int)
    requires
        0 <= i <= j <= s.len(),
        forall|k: int| i <= k < j ==> is_word_char(#[trigger] s[k]),
        j == s.len() || !is_word_char(s[j]),
    ensures
        word_end(s, i) == j,
    decreases j - i,
{
    if i < j {
        lemma_word(s, i + 1, j);
    }
}

proof fn lemma_words()
    ensures
        "$json"@ != "$input"@,
        "$json"@ != "$node"@,
        "$json"@ != "items"@,
        "$json"@ != "return"@,
        "$json"@ != "function"@,
        "$json"@ != "class"@,
        "$input"@ != "$node"@,
        "$input"@ != "items"@,
        "$input"@ != "return"@,
        "$input"@ != "function"@,
        "$input"@ != "class"@,
        "$node"@ != "items"@,
        "$node"@ != "return"@,
        "$node"@ != "function"@,
        "$node"@ != "class"@,
        "items"@ != "return"@,
        "items"@ != "function"@,
        "items"@ != "class"@,
        "return"@ != "function"@,
        "return"@ != "class"@,
        "function"@ != "class"@,
{
    reveal_strlit("$json");
    reveal_strlit("$input");
    reveal_strlit("$node");
    reveal_strlit("items");
    reveal_strlit("return");
    reveal_strlit("function");
    reveal_strlit("class");
    assert("$json"@.len() == 5 && "$input"@.len() == 6 && "$node"@.len() == 5 && "items"@.len() == 5 && "return"@.len() == 6 && "function"@.len() == 8 && "class"@.len() == 5);
    assert("$json"@[1] == 'j');
    assert("$node"@[1] == 'n');
    assert("$json"@[0] == '$');
    assert("items"@[0] == 'i');
    assert("class"@[0] == 'c');
    assert("$input"@[0] == '$');
    assert("return"@[0] == 'r');
    assert("$node"@[0] == '$');
}

/// Code is written for n8n where it names `$json`, `$input`, `$node` or `items`, or
/// returns outside every function; any other word is read on from, with the same
/// braces open.
pub proof fn code_is_told_by_its_words(s: Seq<char>, i: int, j: int, nest: Nesting)
    requires
        0 <= i < j <= s.len(),
        is_word_start(s[i]),
        forall|k: int| i < k < j ==> is_word_char(#[trigger] s[k]),
        j == s.len() || !is_word_char(s[j]),
    ensures
        ({
            let word = s.subrange(i, j);
            &&& word == "$json"@ || word == "$input"@ || word == "$node"@ || word == "items"@
                ==> uses_from(s, i, nest)
            &&& word == "return"@ && (forall|k: int|
                0 <= k < nest.scopes.len() ==> #[trigger] nest.scopes[k] != Scope::Function)
                ==> uses_from(s, i, nest)
            &&& word == "return"@ && nest.scopes.contains(Scope::Function) ==> uses_from(s, i, nest)
                == uses_from(s, j, nest.word(word))
            &&& word == "function"@ ==> uses_from(s, i, nest) == uses_from(s, j, nest.head(false))
            &&& word == "class"@ ==> uses_from(s, i, nest) == uses_from(s, j, nest.head(true))
            &&& word != "$json"@ && word != "$input"@ && word != "$node"@ && word != "items"@
                && word != "return"@ && word != "function"@ && word != "class"@ ==> uses_from(
                s,
                i,
                nest,
            ) == uses_from(s, j, nest.word(word))
            &&& nest.word(word).scopes == nest.scopes
        }),
{
    lemma_words();
    lemma_word(s, i + 1, j);
    assert(word_end(s, i + 1) == j);
    if nest.scopes.contains(Scope::Function) {
        let k = choose|k: int| 0 <= k < nest.scopes.len() && nest.scopes[k] == Scope::Function;
        assert(nest.scopes[k] == Scope::Function);
        assert(in_function(nest.scopes));
    }
}

/// The brace behind the head of a function opens its body, and so does one behind
/// an arrow; the brace behind the head of a class opens its members; and a closing
/// brace takes off what the last one opened.
pub proof fn braces_open_what_their_head_declares(nest: Nesting)
    ensures
        nest.head(false).open_brace().scopes == nest.scopes.push(Scope::Function),
        nest.head(true).open_brace().scopes == nest.scopes.push(Scope::Members),
        nest.heads.len() == 0 ==> nest.arrow().open_brace().scopes == nest.scopes.push(
            Scope::Function,
        ),
        nest.open_brace().close_brace().scopes == nest.scopes,
        top_level().open_brace().scopes == seq![Scope::Block],
        nest.head(false).open_paren().close_paren().open_brace().scopes == nest.scopes.push(
            Scope::Function,
        ),
        nest.open_paren().close_paren().parens == nest.parens,
        in_function(nest.scopes.push(Scope::Function)),
        !in_function(top_level().scopes),
{
    let inner = nest.scopes.push(Scope::Function);
    assert(inner[nest.scopes.len() as int] == Scope::Function);
    assert(nest.open_brace().scopes.drop_last() =~= nest.scopes);
    assert(nest.open_paren().parens.drop_last() =~= nest.parens);
    let h = nest.head(false);
    assert(h.open_paren().close_paren().parens =~= h.parens);
    assert(h.open_paren().close_paren().heads == h.heads);
    assert(top_level().open_brace().scopes =~= seq![Scope::Block]);
}

/// Behind a word that a value follows, a brace opens an object; behind any other
/// word it opens a block.
pub proof fn braces_behind_words(word: Seq<char>)
    ensures
        top_level().word(word).opens() == Scope::Members <==> word == "return"@ || word == "throw"@
            || word == "yield"@ || word == "await"@ || word == "case"@ || word == "default"@ || word
            == "in"@ || word == "of"@ || word == "new"@ || word == "typeof"@ || word == "void"@
            || word == "delete"@ || word == "instanceof"@,
        top_level().word(word).opens() != Scope::Members ==> top_level().word(word).opens()
            == Scope::Block,
{
}

/// A text gives a warning exactly where it is an expression that stays as it is; a
/// list and an object give those of what they hold, in order; and nothing else
/// gives any.
pub proof fn warnings_come_from_every_text(
    raw: Seq<char>,
    items: Seq<JsonView>,
    entries: Seq<(Seq<char>, JsonView)>,
    key: Seq<char>,
    more: JsonView,
    node: Seq<char>,
)
    ensures
        is_expression(raw) && jq_form(raw) is None ==> config_warnings(JsonView::String(raw), node)
            == seq![raw_warning(raw, node)],
        !(is_expression(raw) && jq_form(raw) is None) ==> config_warnings(
            JsonView::String(raw),
            node,
        ).len() == 0,
        config_warnings(JsonView::Array(items.push(more)), node) == config_warnings(
            JsonView::Array(items),
            node,
        ) + config_warnings(more, node),
        config_warnings(JsonView::Object(entries.push((key, more))), node) == config_warnings(
            JsonView::Object(entries),
            node,
        ) + config_warnings(more, node),
        config_warnings(JsonView::Array(Seq::empty()), node).len() == 0,
        config_warnings(JsonView::Object(Seq::empty()), node).len() == 0,
        config_warnings(JsonView::Null, node).len() == 0,
{
    lemma_items(items, more, items.len(), node);
    lemma_entries(entries, (key, more), entries.len(), node);
    assert(items.push(more)[items.len() as int] == more);
    assert(entries.push((key, more))[entries.len() as int] == (key, more));
}

proof fn lemma_items(items: Seq<JsonView>, more: JsonView, n: nat, node: Seq<char>)
    requires
        n <= items.len(),
    ensures
        items_warnings(items.push(more), n, node) == items_warnings(items, n, node),
    decreases n,
{
    if n > 0 {
        lemma_items(items, more, (n - 1) as nat, node);
        assert(items.push(more)[n - 1] == items[n - 1]);
    }
}

proof fn lemma_entries(
    entries: Seq<(Seq<char>, JsonView)>,
    more: (Seq<char>, JsonView),
    n: nat,
    node: Seq<char>,
)
    requires
        n <= entries.len(),
    ensures
        entries_warnings(entries.push(more), n, node) == entries_warnings(entries, n, node),
    decreases n,
{
    if n > 0 {
        lemma_entries(entries, more, (n - 1) as nat, node);
        assert(entries.push(more)[n - 1] == entries[n - 1]);
    }
}

/// A template without expressions is passed over like any other text.
pub proof fn plain_templates_are_passed_over(s: Seq<char>, i: int, j: int, nest: Nesting)
    requires
        0 <= i < j < s.len(),
        s[i] == '`',
        s[j] == '`',
        forall|k: int| i < k < j ==> s[k] != '`' && s[k] != '\\' && s[k] != '$',
    ensures
        uses_from(s, i, nest) == uses_from(s, j + 1, nest.token(false, false)),
{
    lemma_template(s, i + 1, j);
}

proof fn lemma_template(s: Seq<char>, i: int, j: int)
    requires
        0 <= i <= j < s.len(),
        s[j] == '`',
        forall|k: int| i <= k < j ==> s[k] != '`' && s[k] != '\\' && s[k] != '$',
    ensures
        template_end(s, i) == j + 1,
        !template_uses(s, i),
    decreases j - i,
{
    if i < j {
        lemma_template(s, i + 1, j);
    }
}

/// The code inside a template's expression counts as code of its own.
pub proof fn code_in_templates_counts(s: Seq<char>, i: int, j: int, end: int)
    requires
        0 <= i <= j,
        j + 2 <= end < s.len(),
        s[j] == '$',
        s[j + 1] == '{',
        s[end] == '}',
        forall|k: int| i <= k < j ==> s[k] != '`' && s[k] != '\\' && s[k] != '$',
        forall|k: int|
            j + 2 <= k < end ==> s[k] != '`' && s[k] != '"' && s[k] != '\'' && s[k] != '{' && s[k]
                != '}',
        uses_from(s.subrange(j + 2, end), 0, top_level()),
    ensures
        template_uses(s, i),
    decreases j - i,
{
    if i < j {
        code_in_templates_counts(s, i + 1, j, end);
    } else {
        lemma_expression(s, j + 2, end);
    }
}

proof fn lemma_expression(s: Seq<char>, i: int, end: int)
    requires
        0 <= i <= end < s.len(),
        s[end] == '}',
        forall|k: int|
            i <= k < end ==> s[k] != '`' && s[k] != '"' && s[k] != '\'' && s[k] != '{' && s[k]
                != '}',
    ensures
        expression_end(s, i, 1) == end,
    decreases end - i,
{
    if i < end {
        lemma_expression(s, i + 1, end);
    }
}

/// White space changes nothing, and neither does any sign change which braces are
/// open.
pub proof fn signs_open_and_close_nothing(s: Seq<char>, i: int, nest: Nesting, c: char)
    requires
        0 <= i < s.len(),
    ensures
        s[i] == ' ' || s[i] == '\n' || s[i] == '\t' || s[i] == '\r' ==> uses_from(s, i, nest)
            == uses_from(s, i + 1, nest),
        s[i] == ';' || s[i] == ',' || s[i] == '+' || s[i] == '.' ==> uses_from(s, i, nest)
            == uses_from(s, i + 1, nest.sign(s[i])),
        s[i] == '{' ==> uses_from(s, i, nest) == uses_from(s, i + 1, nest.open_brace()),
        s[i] == '}' ==> uses_from(s, i, nest) == uses_from(s, i + 1, nest.close_brace()),
        s[i] == '(' ==> uses_from(s, i, nest) == uses_from(s, i + 1, nest.open_paren()),
        s[i] == ')' ==> uses_from(s, i, nest) == uses_from(s, i + 1, nest.close_paren()),
        i + 1 < s.len() && s[i] == '=' && s[i + 1] == '>' ==> uses_from(s, i, nest) == uses_from(
            s,
            i + 2,
            nest.arrow(),
        ),
        nest.sign(c).scopes == nest.scopes,
        nest.sign(c).parens == nest.parens,
        !uses_from(s, s.len() as int, nest),
{
}

/// Where a value is due, a brace opens an object: behind `=`, `(`, `,`, `[`, `?`, and
/// the signs of arithmetic and comparison; and behind `;` it opens a block.
pub proof fn braces_behind_signs(c: char)
    ensures
        c == '=' || c == ',' || c == '[' || c == '?' || c == '!' || c == '&' || c == '|' || c == '+'
            || c == '-' || c == '*' || c == '/' || c == '%' || c == '<' || c == '>' || c == '~' || c
            == '^' || c == '.' <==> top_level().sign(c).opens() == Scope::Members,
        top_level().sign(c).opens() != Scope::Members ==> top_level().sign(c).opens()
            == Scope::Block,
        top_level().open_paren().opens() == Scope::Members,
{
}

/// A method's parameters among members are followed by its body; the parentheses of
/// a call are not, and neither are those of a control word.
pub proof fn methods_have_bodies(nest: Nesting, word: Seq<char>)
    requires
        nest.heads.len() == 0,
    ensures
        nest.scopes.len() > 0 && nest.scopes.last() == Scope::Members ==> nest.word(
            word,
        ).open_paren().close_paren().opens() == Scope::Function,
        nest.scopes.len() == 0 || nest.scopes.last() != Scope::Members ==> nest.word(
            word,
        ).open_paren().close_paren().opens() == Scope::Block,
{
}

} // verus!
