//! What holds of every mapped n8n node.
use vstd::prelude::*;

use crate::catalog::n8n::expr::{config_warnings, is_left_raw, translated};
use crate::catalog::n8n::javascript::{top_level, uses_from};
use crate::catalog::n8n::node_mapping::{
    code_config, code_keys, config_of, cron, every, http_config, http_parts, is_kept_part,
    kept_parts, kinded, mapped_node, mapping_of, node_text, node_warnings, rule_schedule,
    schedule_of, short_type, trigger_settings, with_default, without,
};
use crate::json::{
    entry, lemma_member_reads, lemma_set_member_keeps_others, lemma_set_member_reads_back, JsonView,
    NumberView,
};
use crate::model::graph::NodeKind;
use crate::text::decimal;

verus! {

/// The type goes by a short name: it is that name, or ends with it after a dot.
pub open spec fn goes_by(n8n_type: Seq<char>, short: Seq<char>) -> bool {
    n8n_type == short || exists|package: Seq<char>| n8n_type == #[trigger] (package + "."@ + short)
}

proof fn lemma_short(package: Seq<char>, short: Seq<char>)
    requires
        !short.contains('.'),
    ensures
        short_type(package + "."@ + short) == short,
        short_type(short) == short,
    decreases short.len(),
{
    reveal_strlit(".");
    assert("."@ =~= seq!['.']);
    let whole = package + "."@ + short;
    if short.len() == 0 {
        assert(whole.last() == '.');
    } else {
        let rest = short.drop_last();
        assert(!rest.contains('.')) by {
            if rest.contains('.') {
                let i = choose|i: int| 0 <= i < rest.len() && rest[i] == '.';
                assert(short[i] == '.');
            }
        }
        assert(short.last() != '.') by {
            if short.last() == '.' {
                assert(short[short.len() - 1] == '.');
            }
        }
        lemma_short(package, rest);
        assert(whole.drop_last() =~= package + "."@ + rest);
        assert(whole.last() == short.last());
        assert(rest.push(short.last()) =~= short);
    }
}

proof fn lemma_goes_by(n8n_type: Seq<char>, short: Seq<char>)
    requires
        goes_by(n8n_type, short),
        !short.contains('.'),
    ensures
        short_type(n8n_type) == short,
{
    if n8n_type == short {
        lemma_short(Seq::empty(), short);
    } else {
        let package = choose|package: Seq<char>| n8n_type == #[trigger] (package + "."@ + short);
        lemma_short(package, short);
    }
}

proof fn lemma_plain_names()
    ensures
        !"if"@.contains('.'),
        !"switch"@.contains('.'),
        !"merge"@.contains('.'),
        !"splitOut"@.contains('.'),
        !"itemLists"@.contains('.'),
        !"httpRequest"@.contains('.'),
        !"code"@.contains('.'),
        !"function"@.contains('.'),
        !"functionItem"@.contains('.'),
        !"scheduleTrigger"@.contains('.'),
        !"cron"@.contains('.'),
        !"interval"@.contains('.'),
        !"webhook"@.contains('.'),
        !"manualTrigger"@.contains('.'),
        !"start"@.contains('.'),
{
    reveal_strlit("if");
    reveal_strlit("switch");
    reveal_strlit("merge");
    reveal_strlit("splitOut");
    reveal_strlit("itemLists");
    reveal_strlit("httpRequest");
    reveal_strlit("code");
    reveal_strlit("function");
    reveal_strlit("functionItem");
    reveal_strlit("scheduleTrigger");
    reveal_strlit("cron");
    reveal_strlit("interval");
    reveal_strlit("webhook");
    reveal_strlit("manualTrigger");
    reveal_strlit("start");
    assert("if"@ =~= seq!['i', 'f']);
    assert("switch"@ =~= seq!['s', 'w', 'i', 't', 'c', 'h']);
    assert("merge"@ =~= seq!['m', 'e', 'r', 'g', 'e']);
    assert("splitOut"@ =~= seq!['s', 'p', 'l', 'i', 't', 'O', 'u', 't']);
    assert("itemLists"@ =~= seq!['i', 't', 'e', 'm', 'L', 'i', 's', 't', 's']);
    assert("httpRequest"@ =~= seq!['h', 't', 't', 'p', 'R', 'e', 'q', 'u', 'e', 's', 't']);
    assert("code"@ =~= seq!['c', 'o', 'd', 'e']);
    assert("function"@ =~= seq!['f', 'u', 'n', 'c', 't', 'i', 'o', 'n']);
    assert("functionItem"@ =~= seq!['f', 'u', 'n', 'c', 't', 'i', 'o', 'n', 'I', 't', 'e', 'm']);
    assert("scheduleTrigger"@ =~= seq!['s', 'c', 'h', 'e', 'd', 'u', 'l', 'e', 'T', 'r', 'i', 'g', 'g', 'e', 'r']);
    assert("cron"@ =~= seq!['c', 'r', 'o', 'n']);
    assert("interval"@ =~= seq!['i', 'n', 't', 'e', 'r', 'v', 'a', 'l']);
    assert("webhook"@ =~= seq!['w', 'e', 'b', 'h', 'o', 'o', 'k']);
    assert("manualTrigger"@ =~= seq!['m', 'a', 'n', 'u', 'a', 'l', 'T', 'r', 'i', 'g', 'g', 'e', 'r']);
    assert("start"@ =~= seq!['s', 't', 'a', 'r', 't']);
}

proof fn lemma_names_differ()
    ensures
        "if"@ != "switch"@,
        "if"@ != "merge"@,
        "if"@ != "splitOut"@,
        "if"@ != "itemLists"@,
        "if"@ != "httpRequest"@,
        "if"@ != "code"@,
        "if"@ != "function"@,
        "if"@ != "functionItem"@,
        "if"@ != "scheduleTrigger"@,
        "if"@ != "cron"@,
        "if"@ != "interval"@,
        "if"@ != "webhook"@,
        "if"@ != "manualTrigger"@,
        "if"@ != "start"@,
        "switch"@ != "merge"@,
        "switch"@ != "splitOut"@,
        "switch"@ != "itemLists"@,
        "switch"@ != "httpRequest"@,
        "switch"@ != "code"@,
        "switch"@ != "function"@,
        "switch"@ != "functionItem"@,
        "switch"@ != "scheduleTrigger"@,
        "switch"@ != "cron"@,
        "switch"@ != "interval"@,
        "switch"@ != "webhook"@,
        "switch"@ != "manualTrigger"@,
        "switch"@ != "start"@,
        "merge"@ != "splitOut"@,
        "merge"@ != "itemLists"@,
        "merge"@ != "httpRequest"@,
        "merge"@ != "code"@,
        "merge"@ != "function"@,
        "merge"@ != "functionItem"@,
        "merge"@ != "scheduleTrigger"@,
        "merge"@ != "cron"@,
        "merge"@ != "interval"@,
        "merge"@ != "webhook"@,
        "merge"@ != "manualTrigger"@,
        "merge"@ != "start"@,
        "splitOut"@ != "itemLists"@,
        "splitOut"@ != "httpRequest"@,
        "splitOut"@ != "code"@,
        "splitOut"@ != "function"@,
        "splitOut"@ != "functionItem"@,
        "splitOut"@ != "scheduleTrigger"@,
        "splitOut"@ != "cron"@,
        "splitOut"@ != "interval"@,
        "splitOut"@ != "webhook"@,
        "splitOut"@ != "manualTrigger"@,
        "splitOut"@ != "start"@,
        "itemLists"@ != "httpRequest"@,
        "itemLists"@ != "code"@,
        "itemLists"@ != "function"@,
        "itemLists"@ != "functionItem"@,
        "itemLists"@ != "scheduleTrigger"@,
        "itemLists"@ != "cron"@,
        "itemLists"@ != "interval"@,
        "itemLists"@ != "webhook"@,
        "itemLists"@ != "manualTrigger"@,
        "itemLists"@ != "start"@,
        "httpRequest"@ != "code"@,
        "httpRequest"@ != "function"@,
        "httpRequest"@ != "functionItem"@,
        "httpRequest"@ != "scheduleTrigger"@,
        "httpRequest"@ != "cron"@,
        "httpRequest"@ != "interval"@,
        "httpRequest"@ != "webhook"@,
        "httpRequest"@ != "manualTrigger"@,
        "httpRequest"@ != "start"@,
        "code"@ != "function"@,
        "code"@ != "functionItem"@,
        "code"@ != "scheduleTrigger"@,
        "code"@ != "cron"@,
        "code"@ != "interval"@,
        "code"@ != "webhook"@,
        "code"@ != "manualTrigger"@,
        "code"@ != "start"@,
        "function"@ != "functionItem"@,
        "function"@ != "scheduleTrigger"@,
        "function"@ != "cron"@,
        "function"@ != "interval"@,
        "function"@ != "webhook"@,
        "function"@ != "manualTrigger"@,
        "function"@ != "start"@,
        "functionItem"@ != "scheduleTrigger"@,
        "functionItem"@ != "cron"@,
        "functionItem"@ != "interval"@,
        "functionItem"@ != "webhook"@,
        "functionItem"@ != "manualTrigger"@,
        "functionItem"@ != "start"@,
        "scheduleTrigger"@ != "cron"@,
        "scheduleTrigger"@ != "interval"@,
        "scheduleTrigger"@ != "webhook"@,
        "scheduleTrigger"@ != "manualTrigger"@,
        "scheduleTrigger"@ != "start"@,
        "cron"@ != "interval"@,
        "cron"@ != "webhook"@,
        "cron"@ != "manualTrigger"@,
        "cron"@ != "start"@,
        "interval"@ != "webhook"@,
        "interval"@ != "manualTrigger"@,
        "interval"@ != "start"@,
        "webhook"@ != "manualTrigger"@,
        "webhook"@ != "start"@,
        "manualTrigger"@ != "start"@,
{
    reveal_strlit("if");
    reveal_strlit("switch");
    reveal_strlit("merge");
    reveal_strlit("splitOut");
    reveal_strlit("itemLists");
    reveal_strlit("httpRequest");
    reveal_strlit("code");
    reveal_strlit("function");
    reveal_strlit("functionItem");
    reveal_strlit("scheduleTrigger");
    reveal_strlit("cron");
    reveal_strlit("interval");
    reveal_strlit("webhook");
    reveal_strlit("manualTrigger");
    reveal_strlit("start");
    assert("if"@.len() == 2 && "switch"@.len() == 6 && "merge"@.len() == 5 && "splitOut"@.len() == 8 && "itemLists"@.len() == 9 && "httpRequest"@.len() == 11 && "code"@.len() == 4 && "function"@.len() == 8 && "functionItem"@.len() == 12 && "scheduleTrigger"@.len() == 15 && "cron"@.len() == 4 && "interval"@.len() == 8 && "webhook"@.len() == 7 && "manualTrigger"@.len() == 13 && "start"@.len() == 5);
    assert("merge"@[0] == 'm');
    assert("start"@[0] == 's');
    assert("splitOut"@[0] == 's');
    assert("function"@[0] == 'f');
    assert("interval"@[0] == 'i');
    assert("code"@[1] == 'o');
    assert("cron"@[1] == 'r');
}

/// Every member of an object keeps its key, with its texts translated.
pub proof fn translation_keeps_the_keys(entries: Seq<(Seq<char>, JsonView)>, key: Seq<char>)
    ensures
        translated(JsonView::Object(entries)).get(key) == (match entry(entries, key) {
            Some(value) => Some(translated(value)),
            None => None,
        }),
    decreases entries.len(),
{
    let after = translated(JsonView::Object(entries))->Object_0;
    if entries.len() > 0 {
        assert(after[0] == (entries[0].0, translated(entries[0].1)));
        if entries[0].0 != key {
            let rest = entries.drop_first();
            translation_keeps_the_keys(rest, key);
            assert(after.drop_first() =~= translated(JsonView::Object(rest))->Object_0);
        }
    }
}

/// Translation goes into arrays item by item, and leaves what is no text alone.
pub proof fn translation_keeps_the_shape(value: JsonView, i: int)
    ensures
        value matches JsonView::Array(items) ==> (translated(value) matches JsonView::Array(after)
            && after.len() == items.len() && (0 <= i < items.len() ==> after[i] == translated(
            items[i],
        ))),
        value is Null || value is Bool || value is Number ==> translated(value) == value,
        value is String ==> translated(value) is String,
        value is Object ==> translated(value) is Object,
{
}

proof fn lemma_config(params: JsonView, key: Seq<char>)
    ensures
        entry(config_of(params), key) == (match params.get(key) {
            Some(value) => Some(translated(value)),
            None => None,
        }),
{
    match params {
        JsonView::Object(entries) => translation_keeps_the_keys(entries, key),
        _ => {},
    }
}

proof fn lemma_push_reads(
    entries: Seq<(Seq<char>, JsonView)>,
    key: Seq<char>,
    value: JsonView,
    other: Seq<char>,
)
    ensures
        entry(entries.push((key, value)), other) == (match entry(entries, other) {
            Some(inner) => Some(inner),
            None => if other == key {
                Some(value)
            } else {
                None
            },
        }),
    decreases entries.len(),
{
    let after = entries.push((key, value));
    if entries.len() == 0 {
        assert(after[0] == (key, value));
        assert(after.drop_first() =~= Seq::empty());
        reveal_with_fuel(entry, 2);
    } else {
        assert(after[0] == entries[0]);
        lemma_push_reads(entries.drop_first(), key, value, other);
        assert(after.drop_first() =~= entries.drop_first().push((key, value)));
    }
}

proof fn lemma_without_others(
    entries: Seq<(Seq<char>, JsonView)>,
    key: Seq<char>,
    other: Seq<char>,
)
    requires
        other != key,
    ensures
        entry(without(entries, key), other) == entry(entries, other),
    decreases entries.len(),
{
    if entries.len() > 0 && entries[0].0 != key {
        lemma_without_others(entries.drop_first(), key, other);
        let after = without(entries, key);
        assert(after[0] == entries[0]);
        assert(after.drop_first() =~= without(entries.drop_first(), key));
    }
}

/// A configuration has a parameter as it was, with its texts translated.
pub open spec fn keeps(config: JsonView, params: JsonView, key: Seq<char>) -> bool {
    &&& params.get(key) matches Some(value) ==> config.get(key) == Some(translated(value))
    &&& params.get(key) is None ==> config.get(key) is None
}

proof fn lemma_trigger(kind: Seq<char>, params: JsonView, other: Seq<char>)
    requires
        other != "trigger_kind"@,
        other != "schedule"@,
    ensures
        ({
            let config = trigger_settings(kind, params);
            &&& config.text_at("trigger_kind"@) == Some(kind)
            &&& keeps(config, params, other)
        }),
{
    reveal_strlit("trigger_kind");
    reveal_strlit("schedule");
    assert("trigger_kind"@.len() == 12 && "schedule"@.len() == 8);
    let cfg = config_of(params);
    let value = JsonView::String(kind);
    lemma_config(params, other);
    lemma_set_member_reads_back(cfg, "trigger_kind"@, value);
    lemma_set_member_keeps_others(cfg, "trigger_kind"@, value, other);
    let with_kind = kinded(kind, params);
    match schedule_of(JsonView::Object(with_kind)) {
        Some(schedule) => {
            lemma_set_member_keeps_others(with_kind, "schedule"@, schedule, "trigger_kind"@);
            lemma_set_member_keeps_others(with_kind, "schedule"@, schedule, other);
        },
        None => {},
    }
}

/// A trigger starts a flow as it did: by its webhook, on its schedule, or by
/// hand; and it keeps its other parameters.
pub proof fn triggers_keep_their_kind(n8n_type: Seq<char>, params: JsonView, other: Seq<char>)
    requires
        other != "trigger_kind"@,
        other != "schedule"@,
    ensures
        ({
            let (kind, config) = mapped_node(n8n_type, params);
            &&& goes_by(n8n_type, "webhook"@) ==> kind == NodeKind::Trigger && config.text_at(
                "trigger_kind"@,
            ) == Some("webhook"@) && keeps(config, params, other)
            &&& goes_by(n8n_type, "scheduleTrigger"@) || goes_by(n8n_type, "cron"@) || goes_by(
                n8n_type,
                "interval"@,
            ) ==> kind == NodeKind::Trigger && config.text_at("trigger_kind"@) == Some(
                "schedule"@,
            ) && keeps(config, params, other)
            &&& goes_by(n8n_type, "manualTrigger"@) || goes_by(n8n_type, "start"@) ==> kind
                == NodeKind::Trigger && config.text_at("trigger_kind"@) == Some("manual"@) && keeps(
                config,
                params,
                other,
            )
        }),
{
    lemma_plain_names();
    lemma_names_differ();
    lemma_trigger("webhook"@, params, other);
    lemma_trigger("schedule"@, params, other);
    lemma_trigger("manual"@, params, other);
    if goes_by(n8n_type, "webhook"@) {
        lemma_goes_by(n8n_type, "webhook"@);
    }
    if goes_by(n8n_type, "scheduleTrigger"@) {
        lemma_goes_by(n8n_type, "scheduleTrigger"@);
    }
    if goes_by(n8n_type, "cron"@) {
        lemma_goes_by(n8n_type, "cron"@);
    }
    if goes_by(n8n_type, "interval"@) {
        lemma_goes_by(n8n_type, "interval"@);
    }
    if goes_by(n8n_type, "manualTrigger"@) {
        lemma_goes_by(n8n_type, "manualTrigger"@);
    }
    if goes_by(n8n_type, "start"@) {
        lemma_goes_by(n8n_type, "start"@);
    }
}

/// A node is not what it was in n8n: it keeps its type and parameters in full,
/// does nothing, and is reported by name.
pub open spec fn is_placeholder(
    n8n_type: Seq<char>,
    params: JsonView,
    name: Seq<char>,
) -> bool {
    let (kind, config) = mapped_node(n8n_type, params);
    &&& kind == NodeKind::Transform
    &&& config.get("parameters"@) == Some(params)
    &&& config.at("_n8n_import"@).text_at("original_type"@) == Some(n8n_type)
    &&& node_warnings(n8n_type, params, name).len() == 1
    &&& node_text(name).is_prefix_of(node_warnings(n8n_type, params, name)[0])
}

/// The type is one that has an equivalent.
pub open spec fn is_known(n8n_type: Seq<char>) -> bool {
    ||| short_type(n8n_type) == "if"@
    ||| short_type(n8n_type) == "switch"@
    ||| short_type(n8n_type) == "merge"@
    ||| short_type(n8n_type) == "splitOut"@
    ||| short_type(n8n_type) == "itemLists"@
    ||| short_type(n8n_type) == "httpRequest"@
    ||| short_type(n8n_type) == "code"@
    ||| short_type(n8n_type) == "function"@
    ||| short_type(n8n_type) == "functionItem"@
    ||| short_type(n8n_type) == "scheduleTrigger"@
    ||| short_type(n8n_type) == "cron"@
    ||| short_type(n8n_type) == "interval"@
    ||| short_type(n8n_type) == "webhook"@
    ||| short_type(n8n_type) == "manualTrigger"@
    ||| short_type(n8n_type) == "start"@
}

/// A node of no known type becomes a placeholder, and so does a list operation
/// other than splitting.
pub proof fn unknown_types_become_placeholders(
    n8n_type: Seq<char>,
    params: JsonView,
    name: Seq<char>,
)
    requires
        !is_known(n8n_type) || (goes_by(n8n_type, "itemLists"@) && params.text_at("operation"@)
            != Some("splitOutItems"@)),
    ensures
        is_placeholder(n8n_type, params, name),
{
    lemma_plain_names();
    lemma_names_differ();
    if goes_by(n8n_type, "itemLists"@) {
        lemma_goes_by(n8n_type, "itemLists"@);
    }
    assert(mapping_of(n8n_type, params) is Unmapped);
    reveal_strlit("_n8n_import");
    reveal_strlit("parameters");
    reveal_strlit("original_type");
    assert("_n8n_import"@.len() == 11 && "parameters"@.len() == 10);
    let entries = mapped_node(n8n_type, params).1->Object_0;
    lemma_member_reads(entries, 0);
    lemma_member_reads(entries, 1);
    lemma_member_reads(entries[0].1->Object_0, 0);
}

proof fn lemma_kept_keys()
    ensures
        "field"@ != "expression"@,
        "field"@ != "_n8n_import"@,
        "field"@ != "conditions"@,
        "field"@ != "rules"@,
        "field"@ != "path"@,
        "field"@ != "fieldToSplitOut"@,
        "expression"@ != "_n8n_import"@,
        "expression"@ != "conditions"@,
        "expression"@ != "rules"@,
        "expression"@ != "path"@,
        "expression"@ != "fieldToSplitOut"@,
        "_n8n_import"@ != "conditions"@,
        "_n8n_import"@ != "rules"@,
        "_n8n_import"@ != "path"@,
        "_n8n_import"@ != "fieldToSplitOut"@,
        "conditions"@ != "rules"@,
        "conditions"@ != "path"@,
        "conditions"@ != "fieldToSplitOut"@,
        "rules"@ != "path"@,
        "rules"@ != "fieldToSplitOut"@,
        "path"@ != "fieldToSplitOut"@,
{
    reveal_strlit("field");
    reveal_strlit("expression");
    reveal_strlit("_n8n_import");
    reveal_strlit("conditions");
    reveal_strlit("rules");
    reveal_strlit("path");
    reveal_strlit("fieldToSplitOut");
    assert("field"@.len() == 5 && "expression"@.len() == 10 && "_n8n_import"@.len() == 11 && "conditions"@.len() == 10 && "rules"@.len() == 5 && "path"@.len() == 4 && "fieldToSplitOut"@.len() == 15);
    assert("field"@[0] == 'f');
    assert("rules"@[0] == 'r');
    assert("expression"@[0] == 'e');
    assert("conditions"@[0] == 'c');
}

/// A condition keeps the field it tests. One whose test was not understood keeps
/// the test itself for its author, and is reported.
pub proof fn conditions_keep_their_test(
    n8n_type: Seq<char>,
    params: JsonView,
    name: Seq<char>,
    other: Seq<char>,
)
    requires
        goes_by(n8n_type, "if"@),
        other != "_n8n_import"@,
    ensures
        ({
            let (kind, config) = mapped_node(n8n_type, params);
            let said = node_warnings(n8n_type, params, name);
            &&& kind == NodeKind::Condition
            &&& keeps(config, params, other)
            &&& params.get("field"@) is None ==> config.at("_n8n_import"@).get("conditions"@)
                == Some(params.at("conditions"@))
            &&& params.get("field"@) is None ==> said.len() == config_warnings(params, name).len()
                + 1 && node_text(name).is_prefix_of(said.last())
            &&& params.get("field"@) is Some ==> said == config_warnings(params, name)
        }),
{
    lemma_plain_names();
    lemma_names_differ();
    lemma_kept_keys();
    lemma_goes_by(n8n_type, "if"@);
    lemma_config(params, other);
    lemma_config(params, "field"@);
    let cfg = config_of(params);
    let kept = seq![("conditions"@, params.at("conditions"@))];
    lemma_set_member_reads_back(cfg, "_n8n_import"@, JsonView::Object(kept));
    lemma_set_member_keeps_others(cfg, "_n8n_import"@, JsonView::Object(kept), other);
    lemma_member_reads(kept, 0);
    assert(config_warnings(params, name) + Seq::empty() =~= config_warnings(params, name));
}

/// A switch keeps what it routes by. One whose rules were not understood keeps
/// the rules for its author, and is reported.
pub proof fn switches_keep_their_rules(
    n8n_type: Seq<char>,
    params: JsonView,
    name: Seq<char>,
    other: Seq<char>,
)
    requires
        goes_by(n8n_type, "switch"@),
        other != "_n8n_import"@,
    ensures
        ({
            let (kind, config) = mapped_node(n8n_type, params);
            let said = node_warnings(n8n_type, params, name);
            let understood = params.get("field"@) is Some || params.get("expression"@) is Some;
            &&& kind == NodeKind::Switch
            &&& keeps(config, params, other)
            &&& !understood ==> config.at("_n8n_import"@).get("rules"@) == Some(
                params.at("rules"@),
            )
            &&& !understood ==> said.len() == config_warnings(params, name).len() + 1 && node_text(
                name,
            ).is_prefix_of(said.last())
            &&& understood ==> said == config_warnings(params, name)
        }),
{
    lemma_plain_names();
    lemma_names_differ();
    lemma_kept_keys();
    lemma_goes_by(n8n_type, "switch"@);
    lemma_config(params, other);
    lemma_config(params, "field"@);
    lemma_config(params, "expression"@);
    let cfg = config_of(params);
    let kept = seq![("rules"@, params.at("rules"@))];
    lemma_set_member_reads_back(cfg, "_n8n_import"@, JsonView::Object(kept));
    lemma_set_member_keeps_others(cfg, "_n8n_import"@, JsonView::Object(kept), other);
    lemma_member_reads(kept, 0);
    assert(config_warnings(params, name) + Seq::empty() =~= config_warnings(params, name));
}

/// A merge keeps its parameters.
pub proof fn merges_keep_their_parameters(
    n8n_type: Seq<char>,
    params: JsonView,
    name: Seq<char>,
    key: Seq<char>,
)
    requires
        goes_by(n8n_type, "merge"@),
    ensures
        mapped_node(n8n_type, params).0 == NodeKind::Merge,
        params is Object ==> keeps(mapped_node(n8n_type, params).1, params, key),
        node_warnings(n8n_type, params, name) == config_warnings(params, name),
{
    lemma_plain_names();
    lemma_names_differ();
    lemma_goes_by(n8n_type, "merge"@);
    lemma_config(params, key);
}

/// What a split splits by goes by `path`, and its other parameters stay.
pub proof fn splits_keep_their_field(
    n8n_type: Seq<char>,
    params: JsonView,
    name: Seq<char>,
    other: Seq<char>,
)
    requires
        goes_by(n8n_type, "splitOut"@) || (goes_by(n8n_type, "itemLists"@) && params.text_at(
            "operation"@,
        ) == Some("splitOutItems"@)),
        other != "path"@,
        other != "fieldToSplitOut"@,
    ensures
        ({
            let (kind, config) = mapped_node(n8n_type, params);
            &&& kind == NodeKind::SplitOut
            &&& params.get("fieldToSplitOut"@) matches Some(field) ==> config.get("path"@) == Some(
                translated(field),
            )
            &&& keeps(config, params, other)
            &&& node_warnings(n8n_type, params, name) == config_warnings(params, name)
        }),
{
    lemma_plain_names();
    lemma_names_differ();
    if goes_by(n8n_type, "splitOut"@) {
        lemma_goes_by(n8n_type, "splitOut"@);
    } else {
        lemma_goes_by(n8n_type, "itemLists"@);
    }
    lemma_config(params, other);
    lemma_config(params, "fieldToSplitOut"@);
    let cfg = config_of(params);
    let rest = without(cfg, "fieldToSplitOut"@);
    lemma_without_others(cfg, "fieldToSplitOut"@, other);
    match entry(cfg, "fieldToSplitOut"@) {
        Some(field) => {
            lemma_set_member_reads_back(rest, "path"@, field);
            lemma_set_member_keeps_others(rest, "path"@, field, other);
        },
        None => {},
    }
}

proof fn lemma_http_keys()
    ensures
        "method"@ != "requestMethod"@,
        "method"@ != "_n8n_import"@,
        "method"@ != "untranslated"@,
        "method"@ != "jsonBody"@,
        "method"@ != "bodyParameters"@,
        "method"@ != "headerParameters"@,
        "method"@ != "queryParameters"@,
        "method"@ != "parameters"@,
        "requestMethod"@ != "_n8n_import"@,
        "requestMethod"@ != "untranslated"@,
        "requestMethod"@ != "jsonBody"@,
        "requestMethod"@ != "bodyParameters"@,
        "requestMethod"@ != "headerParameters"@,
        "requestMethod"@ != "queryParameters"@,
        "requestMethod"@ != "parameters"@,
        "_n8n_import"@ != "untranslated"@,
        "_n8n_import"@ != "jsonBody"@,
        "_n8n_import"@ != "bodyParameters"@,
        "_n8n_import"@ != "headerParameters"@,
        "_n8n_import"@ != "queryParameters"@,
        "_n8n_import"@ != "parameters"@,
        "untranslated"@ != "jsonBody"@,
        "untranslated"@ != "bodyParameters"@,
        "untranslated"@ != "headerParameters"@,
        "untranslated"@ != "queryParameters"@,
        "untranslated"@ != "parameters"@,
        "jsonBody"@ != "bodyParameters"@,
        "jsonBody"@ != "headerParameters"@,
        "jsonBody"@ != "queryParameters"@,
        "jsonBody"@ != "parameters"@,
        "bodyParameters"@ != "headerParameters"@,
        "bodyParameters"@ != "queryParameters"@,
        "bodyParameters"@ != "parameters"@,
        "headerParameters"@ != "queryParameters"@,
        "headerParameters"@ != "parameters"@,
        "queryParameters"@ != "parameters"@,
{
    reveal_strlit("method");
    reveal_strlit("requestMethod");
    reveal_strlit("_n8n_import");
    reveal_strlit("untranslated");
    reveal_strlit("jsonBody");
    reveal_strlit("bodyParameters");
    reveal_strlit("headerParameters");
    reveal_strlit("queryParameters");
    reveal_strlit("parameters");
    assert("method"@.len() == 6 && "requestMethod"@.len() == 13 && "_n8n_import"@.len() == 11 && "untranslated"@.len() == 12 && "jsonBody"@.len() == 8 && "bodyParameters"@.len() == 14 && "headerParameters"@.len() == 16 && "queryParameters"@.len() == 15 && "parameters"@.len() == 10);
}

/// A part of a request is understood: it is not there, or a body whose texts can
/// be translated, or a list of named values.
pub open spec fn understood(params: JsonView, key: Seq<char>) -> bool {
    match params.get(key) {
        None => true,
        Some(value) => if key == "jsonBody"@ {
            !(value matches JsonView::String(text) && is_left_raw(text))
        } else {
            value.at("parameters"@) is Array
        },
    }
}

/// The parts of a request that may not be understood.
pub open spec fn is_part(key: Seq<char>) -> bool {
    ||| key == "jsonBody"@
    ||| key == "bodyParameters"@
    ||| key == "headerParameters"@
    ||| key == "queryParameters"@
}

proof fn lemma_kept_parts(params: JsonView, n: nat, key: Seq<char>)
    requires
        n <= 4,
    ensures
        entry(kept_parts(params, n), key) == (if exists|i: int|
            0 <= i < n && #[trigger] http_parts()[i] == key && !understood(params, key) {
            Some(params.at(key))
        } else {
            None
        }),
    decreases n,
{
    lemma_http_keys();
    let parts = http_parts();
    assert(parts[0] == "jsonBody"@ && parts[1] == "bodyParameters"@ && parts[2]
        == "headerParameters"@ && parts[3] == "queryParameters"@);
    if n > 0 {
        lemma_kept_parts(params, (n - 1) as nat, key);
        let rest = kept_parts(params, (n - 1) as nat);
        let last = parts[n - 1];
        assert(is_kept_part(params, last) == !understood(params, last));
        lemma_push_reads(rest, last, params.at(last), key);
        if last == key {
            assert(parts[n - 1] == key);
        }
    }
}

proof fn lemma_some_kept(params: JsonView, n: nat, i: int)
    requires
        0 <= i < n <= 4,
        is_kept_part(params, http_parts()[i]),
    ensures
        kept_parts(params, n).len() > 0,
    decreases n,
{
    if i < n - 1 {
        lemma_some_kept(params, (n - 1) as nat, i);
    }
}

proof fn lemma_none_kept(params: JsonView, n: nat)
    requires
        n <= 4,
        forall|i: int| 0 <= i < n ==> !is_kept_part(params, #[trigger] http_parts()[i]),
    ensures
        kept_parts(params, n).len() == 0,
    decreases n,
{
    if n > 0 {
        lemma_none_kept(params, (n - 1) as nat);
    }
}

proof fn lemma_http(params: JsonView, other: Seq<char>)
    requires
        other != "method"@,
        other != "requestMethod"@,
    ensures
        ({
            let config = JsonView::Object(http_config(params));
            &&& params.get("method"@) matches Some(method) ==> config.get("method"@) == Some(
                translated(method),
            )
            &&& params.get("method"@) is None ==> (params.get("requestMethod"@) matches Some(method)
                ==> config.get("method"@) == Some(translated(method)))
            &&& params.get("method"@) is None && params.get("requestMethod"@) is None
                ==> config.get("method"@) == Some(JsonView::String("GET"@))
            &&& keeps(config, params, other)
        }),
{
    lemma_http_keys();
    lemma_config(params, other);
    lemma_config(params, "method"@);
    lemma_config(params, "requestMethod"@);
    let cfg = config_of(params);
    let get = JsonView::String("GET"@);
    lemma_push_reads(cfg, "method"@, get, "method"@);
    lemma_push_reads(cfg, "method"@, get, other);
    match entry(cfg, "requestMethod"@) {
        Some(method) => {
            let rest = without(cfg, "requestMethod"@);
            lemma_without_others(cfg, "requestMethod"@, other);
            lemma_set_member_reads_back(rest, "method"@, method);
            lemma_set_member_keeps_others(rest, "method"@, method, other);
        },
        None => {},
    }
}

/// A request is sent as it was, by its own method or else `GET`, where every part
/// of it is understood.
pub proof fn requests_are_sent_as_they_were(
    n8n_type: Seq<char>,
    params: JsonView,
    name: Seq<char>,
    other: Seq<char>,
)
    requires
        goes_by(n8n_type, "httpRequest"@),
        forall|key: Seq<char>| is_part(key) ==> #[trigger] understood(params, key),
        other != "method"@,
        other != "requestMethod"@,
    ensures
        ({
            let (kind, config) = mapped_node(n8n_type, params);
            &&& kind == NodeKind::HttpRequest
            &&& params.get("method"@) matches Some(method) ==> config.get("method"@) == Some(
                translated(method),
            )
            &&& params.get("method"@) is None ==> (params.get("requestMethod"@) matches Some(method)
                ==> config.get("method"@) == Some(translated(method)))
            &&& params.get("method"@) is None && params.get("requestMethod"@) is None
                ==> config.get("method"@) == Some(JsonView::String("GET"@))
            &&& keeps(config, params, other)
            &&& node_warnings(n8n_type, params, name) == config_warnings(params, name)
        }),
{
    lemma_plain_names();
    lemma_names_differ();
    lemma_http_keys();
    lemma_goes_by(n8n_type, "httpRequest"@);
    lemma_http(params, other);
    assert forall|i: int| 0 <= i < 4 implies !is_kept_part(params, #[trigger] http_parts()[i]) by {
        assert(is_part(http_parts()[i]));
        assert(understood(params, http_parts()[i]));
    }
    lemma_none_kept(params, 4);
}

/// A request with a part that is not understood is never sent without it: it
/// becomes a placeholder that keeps the part as it was, and is reported.
pub proof fn no_part_of_a_request_is_lost(
    n8n_type: Seq<char>,
    params: JsonView,
    name: Seq<char>,
    key: Seq<char>,
)
    requires
        goes_by(n8n_type, "httpRequest"@),
        is_part(key),
        !understood(params, key),
    ensures
        ({
            let (kind, config) = mapped_node(n8n_type, params);
            let said = node_warnings(n8n_type, params, name);
            &&& kind == NodeKind::Transform
            &&& config.at("_n8n_import"@).at("untranslated"@).get(key) == Some(params.at(key))
            &&& said.len() == config_warnings(params, name).len() + 1
            &&& node_text(name).is_prefix_of(said.last())
        }),
{
    lemma_plain_names();
    lemma_names_differ();
    lemma_http_keys();
    lemma_goes_by(n8n_type, "httpRequest"@);
    lemma_kept_parts(params, 4, key);
    let parts = http_parts();
    assert(parts[0] == "jsonBody"@ && parts[1] == "bodyParameters"@ && parts[2]
        == "headerParameters"@ && parts[3] == "queryParameters"@);
    let i: int = if key == "jsonBody"@ {
        0
    } else if key == "bodyParameters"@ {
        1
    } else if key == "headerParameters"@ {
        2
    } else {
        3
    };
    assert(parts[i] == key);
    assert(is_kept_part(params, parts[i]));
    lemma_some_kept(params, 4, i);
    let kept = kept_parts(params, 4);
    let note = seq![("untranslated"@, JsonView::Object(kept))];
    lemma_member_reads(note, 0);
    lemma_set_member_reads_back(http_config(params), "_n8n_import"@, JsonView::Object(note));
}

proof fn lemma_code_keys()
    ensures
        "jsCode"@ != "functionCode"@,
        "jsCode"@ != "pythonCode"@,
        "jsCode"@ != "source"@,
        "jsCode"@ != "language"@,
        "functionCode"@ != "pythonCode"@,
        "functionCode"@ != "source"@,
        "functionCode"@ != "language"@,
        "pythonCode"@ != "source"@,
        "pythonCode"@ != "language"@,
        "source"@ != "language"@,
{
    reveal_strlit("jsCode");
    reveal_strlit("functionCode");
    reveal_strlit("pythonCode");
    reveal_strlit("source");
    reveal_strlit("language");
    assert("jsCode"@.len() == 6 && "functionCode"@.len() == 12 && "pythonCode"@.len() == 10 && "source"@.len() == 6 && "language"@.len() == 8);
    assert("jsCode"@[0] == 'j');
    assert("source"@[0] == 's');
}

proof fn lemma_default_reads(
    entries: Seq<(Seq<char>, JsonView)>,
    key: Seq<char>,
    value: JsonView,
    other: Seq<char>,
)
    ensures
        entry(with_default(entries, key, value), key) == (match entry(entries, key) {
            Some(own) => Some(own),
            None => Some(value),
        }),
        other != key ==> entry(with_default(entries, key, value), other) == entry(entries, other),
{
    lemma_push_reads(entries, key, value, key);
    lemma_push_reads(entries, key, value, other);
}

/// What the configuration reads after one source key was looked at.
proof fn lemma_code_step(params: JsonView, n: nat, other: Seq<char>)
    requires
        n < 3,
    ensures
        ({
            let before = code_config(params, n);
            let after = code_config(params, n + 1);
            let (key, language) = code_keys()[n as int];
            &&& other != key && other != "source"@ && other != "language"@ ==> entry(after, other)
                == entry(before, other)
            &&& entry(before, key) is None ==> after == before
            &&& entry(before, key) matches Some(code) ==> entry(after, "source"@) == (match entry(
                before,
                "source"@,
            ) {
                Some(own) => Some(own),
                None => Some(code),
            })
            &&& entry(before, key) is Some ==> entry(after, "language"@) == (match entry(
                before,
                "language"@,
            ) {
                Some(own) => Some(own),
                None => Some(JsonView::String(language)),
            })
        }),
{
    lemma_code_keys();
    let before = code_config(params, n);
    let (key, language) = code_keys()[n as int];
    match entry(before, key) {
        Some(code) => {
            let rest = without(before, key);
            let sourced = with_default(rest, "source"@, code);
            let spoken = JsonView::String(language);
            if other != key {
                lemma_without_others(before, key, other);
            }
            lemma_without_others(before, key, "source"@);
            lemma_without_others(before, key, "language"@);
            lemma_default_reads(rest, "source"@, code, other);
            lemma_default_reads(rest, "source"@, code, "language"@);
            lemma_default_reads(sourced, "language"@, spoken, other);
            lemma_default_reads(sourced, "language"@, spoken, "source"@);
        },
        None => {},
    }
}

/// A code node keeps its source under `source`, in the language it was written
/// in, and its other parameters; code that only runs in n8n is reported.
pub proof fn code_keeps_its_source(
    n8n_type: Seq<char>,
    params: JsonView,
    name: Seq<char>,
    other: Seq<char>,
)
    requires
        goes_by(n8n_type, "code"@) || goes_by(n8n_type, "function"@) || goes_by(
            n8n_type,
            "functionItem"@,
        ),
        params.get("source"@) is None,
        params.get("language"@) is None,
        other != "jsCode"@,
        other != "functionCode"@,
        other != "pythonCode"@,
        other != "source"@,
        other != "language"@,
    ensures
        ({
            let (kind, config) = mapped_node(n8n_type, params);
            let said = node_warnings(n8n_type, params, name);
            let js = if params.get("jsCode"@) is Some {
                params.get("jsCode"@)
            } else {
                params.get("functionCode"@)
            };
            &&& kind == NodeKind::Code
            &&& js matches Some(code) ==> config.get("source"@) == Some(translated(code))
                && config.text_at("language"@) == Some("javascript"@)
            &&& js is None ==> (params.get("pythonCode"@) matches Some(code) ==> config.get(
                "source"@,
            ) == Some(translated(code)) && config.text_at("language"@) == Some("python"@))
            &&& keeps(config, params, other)
            &&& (config.text_at("language"@) == Some("javascript"@) && (config.text_at(
                "source"@,
            ) matches Some(source) && uses_from(source, 0, top_level()))) ==> said.len()
                == config_warnings(params, name).len() + 1 && node_text(name).is_prefix_of(
                said.last(),
            )
            &&& !(config.text_at("language"@) == Some("javascript"@) && (config.text_at(
                "source"@,
            ) matches Some(source) && uses_from(source, 0, top_level()))) ==> said
                == config_warnings(params, name)
        }),
{
    lemma_plain_names();
    lemma_names_differ();
    lemma_code_keys();
    if goes_by(n8n_type, "code"@) {
        lemma_goes_by(n8n_type, "code"@);
    } else if goes_by(n8n_type, "function"@) {
        lemma_goes_by(n8n_type, "function"@);
    } else {
        lemma_goes_by(n8n_type, "functionItem"@);
    }
    lemma_config(params, other);
    lemma_config(params, "jsCode"@);
    lemma_config(params, "functionCode"@);
    lemma_config(params, "pythonCode"@);
    lemma_config(params, "source"@);
    lemma_config(params, "language"@);
    let keys = code_keys();
    assert(keys[0] == ("jsCode"@, "javascript"@) && keys[1] == ("functionCode"@, "javascript"@)
        && keys[2] == ("pythonCode"@, "python"@));
    lemma_code_step(params, 0, other);
    lemma_code_step(params, 0, "functionCode"@);
    lemma_code_step(params, 0, "pythonCode"@);
    lemma_code_step(params, 1, other);
    lemma_code_step(params, 1, "pythonCode"@);
    lemma_code_step(params, 2, other);
    assert(code_config(params, 0) == config_of(params));
    assert(code_keys().len() == 3);
    assert(mapped_node(n8n_type, params).1 == JsonView::Object(code_config(params, 3)));
}

proof fn lemma_schedule_keys()
    ensures
        "trigger_kind"@ != "schedule"@,
        "trigger_kind"@ != "cronExpression"@,
        "trigger_kind"@ != "unit"@,
        "trigger_kind"@ != "value"@,
        "trigger_kind"@ != "rule"@,
        "trigger_kind"@ != "kind"@,
        "trigger_kind"@ != "expr"@,
        "trigger_kind"@ != "every"@,
        "trigger_kind"@ != "every_ms"@,
        "trigger_kind"@ != "cron"@,
        "schedule"@ != "cronExpression"@,
        "schedule"@ != "unit"@,
        "schedule"@ != "value"@,
        "schedule"@ != "rule"@,
        "schedule"@ != "kind"@,
        "schedule"@ != "expr"@,
        "schedule"@ != "every"@,
        "schedule"@ != "every_ms"@,
        "schedule"@ != "cron"@,
        "cronExpression"@ != "unit"@,
        "cronExpression"@ != "value"@,
        "cronExpression"@ != "rule"@,
        "cronExpression"@ != "kind"@,
        "cronExpression"@ != "expr"@,
        "cronExpression"@ != "every"@,
        "cronExpression"@ != "every_ms"@,
        "cronExpression"@ != "cron"@,
        "unit"@ != "value"@,
        "unit"@ != "rule"@,
        "unit"@ != "kind"@,
        "unit"@ != "expr"@,
        "unit"@ != "every"@,
        "unit"@ != "every_ms"@,
        "unit"@ != "cron"@,
        "value"@ != "rule"@,
        "value"@ != "kind"@,
        "value"@ != "expr"@,
        "value"@ != "every"@,
        "value"@ != "every_ms"@,
        "value"@ != "cron"@,
        "rule"@ != "kind"@,
        "rule"@ != "expr"@,
        "rule"@ != "every"@,
        "rule"@ != "every_ms"@,
        "rule"@ != "cron"@,
        "kind"@ != "expr"@,
        "kind"@ != "every"@,
        "kind"@ != "every_ms"@,
        "kind"@ != "cron"@,
        "expr"@ != "every"@,
        "expr"@ != "every_ms"@,
        "expr"@ != "cron"@,
        "every"@ != "every_ms"@,
        "every"@ != "cron"@,
        "every_ms"@ != "cron"@,
{
    reveal_strlit("trigger_kind");
    reveal_strlit("schedule");
    reveal_strlit("cronExpression");
    reveal_strlit("unit");
    reveal_strlit("value");
    reveal_strlit("rule");
    reveal_strlit("kind");
    reveal_strlit("expr");
    reveal_strlit("every");
    reveal_strlit("every_ms");
    reveal_strlit("cron");
    assert("trigger_kind"@.len() == 12 && "schedule"@.len() == 8 && "cronExpression"@.len() == 14 && "unit"@.len() == 4 && "value"@.len() == 5 && "rule"@.len() == 4 && "kind"@.len() == 4 && "expr"@.len() == 4 && "every"@.len() == 5 && "every_ms"@.len() == 8 && "cron"@.len() == 4);
    assert("schedule"@[0] == 's');
    assert("every_ms"@[0] == 'e');
    assert("unit"@[0] == 'u');
    assert("rule"@[0] == 'r');
    assert("kind"@[0] == 'k');
    assert("expr"@[0] == 'e');
    assert("cron"@[0] == 'c');
    assert("value"@[0] == 'v');
    assert("every"@[0] == 'e');
}

proof fn lemma_units_differ()
    ensures
        "seconds"@ != "minutes"@,
        "seconds"@ != "hours"@,
        "seconds"@ != "days"@,
        "minutes"@ != "hours"@,
        "minutes"@ != "days"@,
        "hours"@ != "days"@,
{
    reveal_strlit("seconds");
    reveal_strlit("minutes");
    reveal_strlit("hours");
    reveal_strlit("days");
    assert("seconds"@.len() == 7 && "minutes"@.len() == 7 && "hours"@.len() == 5 && "days"@.len() == 4);
    assert("seconds"@[0] == 's');
    assert("minutes"@[0] == 'm');
}

/// So many milliseconds are in a unit of time.
pub open spec fn unit_is(unit: Seq<char>, ms: nat) -> bool {
    ||| unit == "seconds"@ && ms == 1000
    ||| unit == "minutes"@ && ms == 60 * 1000
    ||| unit == "hours"@ && ms == 60 * 60 * 1000
    ||| unit == "days"@ && ms == 24 * 60 * 60 * 1000
}

/// The schedule repeats every so many milliseconds.
pub open spec fn repeats(schedule: JsonView, ms: nat) -> bool {
    &&& schedule.text_at("kind"@) == Some("every"@)
    &&& schedule.get("every_ms"@) == Some(
        JsonView::Number(NumberView::Float(decimal(ms) + ".0"@)),
    )
}

/// A schedule trigger runs when it did: by its cron expression, or every so many
/// units of time.
pub proof fn schedules_keep_their_time(
    n8n_type: Seq<char>,
    params: JsonView,
    unit: Seq<char>,
    ms: nat,
    n: u64,
)
    requires
        goes_by(n8n_type, "scheduleTrigger"@) || goes_by(n8n_type, "cron"@) || goes_by(
            n8n_type,
            "interval"@,
        ),
        params is Object,
        unit_is(unit, ms),
        n * ms <= 9007199254740991,
    ensures
        ({
            let config = mapped_node(n8n_type, params).1;
            let plain = translated(params);
            &&& plain.text_at("cronExpression"@) matches Some(expr) ==> config.at(
                "schedule"@,
            ).text_at("kind"@) == Some("cron"@) && config.at("schedule"@).text_at("expr"@) == Some(
                expr,
            )
            &&& plain.text_at("cronExpression"@) is None && plain.text_at("unit"@) == Some(unit)
                && plain.at("value"@) == JsonView::Number(NumberView::PosInt(n)) ==> repeats(
                config.at("schedule"@),
                (n * ms) as nat,
            )
        }),
{
    lemma_plain_names();
    lemma_names_differ();
    lemma_schedule_keys();
    lemma_units_differ();
    if goes_by(n8n_type, "scheduleTrigger"@) {
        lemma_goes_by(n8n_type, "scheduleTrigger"@);
    } else if goes_by(n8n_type, "cron"@) {
        lemma_goes_by(n8n_type, "cron"@);
    } else {
        lemma_goes_by(n8n_type, "interval"@);
    }
    let plain = translated(params);
    let cfg = kinded("schedule"@, params);
    let tagged = JsonView::String("schedule"@);
    lemma_set_member_keeps_others(config_of(params), "trigger_kind"@, tagged, "cronExpression"@);
    lemma_set_member_keeps_others(config_of(params), "trigger_kind"@, tagged, "unit"@);
    lemma_set_member_keeps_others(config_of(params), "trigger_kind"@, tagged, "value"@);
    assert(plain == JsonView::Object(config_of(params)));
    match plain.text_at("cronExpression"@) {
        Some(expr) => {
            let made = cron(expr);
            lemma_member_reads(made->Object_0, 0);
            lemma_member_reads(made->Object_0, 1);
            lemma_set_member_reads_back(cfg, "schedule"@, made);
        },
        None => {
            if plain.text_at("unit"@) == Some(unit) && plain.at("value"@) == JsonView::Number(
                NumberView::PosInt(n),
            ) {
                let made = every((n * ms) as nat);
                lemma_member_reads(made->Object_0, 0);
                lemma_member_reads(made->Object_0, 1);
                assert(schedule_of(JsonView::Object(cfg)) == Some(made));
                lemma_set_member_reads_back(cfg, "schedule"@, made);
            }
        },
    }
}

/// A rule of a schedule trigger says when it runs: by its cron expression, or
/// every so many of its unit.
pub proof fn schedule_rules_keep_their_time(rule: JsonView, unit: Seq<char>, ms: nat, n: u64)
    requires
        unit_is(unit, ms),
        n * ms <= 9007199254740991,
    ensures
        ({
            let made = rule_schedule(rule);
            &&& rule.text_at("field"@) == Some("cronExpression"@) ==> (rule.text_at(
                "expression"@,
            ) matches Some(expr) ==> (made matches Some(schedule) && schedule.text_at("kind"@)
                == Some("cron"@) && schedule.text_at("expr"@) == Some(expr)))
            &&& rule.text_at("field"@) == Some(unit) && rule.at(unit + "Interval"@)
                == JsonView::Number(NumberView::PosInt(n)) ==> (made matches Some(schedule)
                && repeats(schedule, (n * ms) as nat))
        }),
{
    lemma_schedule_keys();
    lemma_units_differ();
    reveal_strlit("cronExpression");
    reveal_strlit("seconds");
    reveal_strlit("minutes");
    reveal_strlit("hours");
    reveal_strlit("days");
    assert("seconds"@.len() == 7 && "minutes"@.len() == 7 && "hours"@.len() == 5 && "days"@.len()
        == 4);
    assert("cronExpression"@.len() == 14 && unit.len() < 8);
    let a = cron(rule.text_or_empty("expression"@));
    lemma_member_reads(a->Object_0, 0);
    lemma_member_reads(a->Object_0, 1);
    let b = every((n * ms) as nat);
    lemma_member_reads(b->Object_0, 0);
    lemma_member_reads(b->Object_0, 1);
}

/// A schedule whose parameters hold neither a cron expression nor a unit is read
/// from its first rule.
pub proof fn first_rules_set_the_schedule(cfg: JsonView)
    requires
        cfg.text_at("cronExpression"@) is None,
        cfg.text_at("unit"@) is None,
    ensures
        cfg.at("rule"@).at("interval"@) matches JsonView::Array(rules) ==> rules.len() > 0
            ==> schedule_of(cfg) == rule_schedule(rules[0]),
{
}

} // verus!
