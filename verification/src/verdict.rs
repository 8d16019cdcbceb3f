//! The verdict of the check that an answer keeps the rules.

use vstd::prelude::*;

use crate::fields::{
    distinct_names, find_named, has_distinct_names, members, members_view, named_value, names_field,
    read_members, Layout,
};
use crate::json::{json_node, read_node, JsonNode, NodeModel};
use crate::numbers::{i64_of, parse_i64, signed_decimal, signed_text};
use crate::tasks::{Invariant, RuleModel};
use crate::text::{
    agrees, has_part, is_blank, join, joined, lemma_joined_part, lemma_middle_part,
    lemma_part_of_part, lemma_views_push, same, trim, view_option, views,
};

verus! {

broadcast use lemma_views_push;

/// What the check found.
#[derive(Debug, Clone, Copy, PartialEq, Eq, Structural)]
pub enum VerificationVerdict {
    Allow,
    CompliantRefusal,
    Violation,
    Uncertain,
}

/// The verdict with the rules that it is about and its reason.
#[derive(Debug, PartialEq, Eq)]
pub struct VerificationResult {
    pub verdict: VerificationVerdict,
    pub invariant_ids: Vec<i64>,
    pub reason: String,
}

/// The verdict, mathematically.
pub ghost struct VerdictModel {
    pub verdict: VerificationVerdict,
    pub invariant_ids: Seq<i64>,
    pub reason: Seq<char>,
}

impl View for VerificationResult {
    type V = VerdictModel;

    open spec fn view(&self) -> VerdictModel {
        VerdictModel {
            verdict: self.verdict,
            invariant_ids: self.invariant_ids@,
            reason: self.reason@,
        }
    }
}

/// The verdict with a name.
pub open spec fn verdict_named(name: Seq<char>) -> Option<VerificationVerdict> {
    if name == "allow"@ {
        Some(VerificationVerdict::Allow)
    } else if name == "compliant_refusal"@ {
        Some(VerificationVerdict::CompliantRefusal)
    } else if name == "violation"@ {
        Some(VerificationVerdict::Violation)
    } else if name == "uncertain"@ {
        Some(VerificationVerdict::Uncertain)
    } else {
        None
    }
}

/// The verdict that a JSON text stands for: its name, or an object that holds the name alone.
pub open spec fn verdict_field(text: Seq<char>) -> Option<VerificationVerdict> {
    match json_node(text) {
        Ok(NodeModel::Text(name)) => verdict_named(name),
        Ok(NodeModel::Object(_)) => {
            let list = members(text);
            if list.len() == 1 && json_node(list[0].1) == Ok::<NodeModel, Seq<char>>(
                NodeModel::Null,
            ) && list[0].0 is Some {
                verdict_named(list[0].0->Some_0)
            } else {
                None
            }
        },
        _ => None,
    }
}

/// The identifiers of a JSON array of integers.
pub open spec fn rule_ids(items: Seq<Seq<char>>) -> Option<Seq<i64>>
    decreases items.len(),
{
    if items.len() == 0 {
        Some(Seq::empty())
    } else {
        match rule_ids(items.drop_last()) {
            None => None,
            Some(head) => match json_node(items.last()) {
                Ok(NodeModel::Number(digits)) => match i64_of(digits) {
                    Some(id) => Some(head.push(id as i64)),
                    None => None,
                },
                _ => None,
            },
        }
    }
}

/// The identifiers that a JSON text stands for.
pub open spec fn rule_ids_field(text: Seq<char>) -> Option<Seq<i64>> {
    match json_node(text) {
        Ok(NodeModel::Array(items)) => rule_ids(items),
        _ => None,
    }
}

/// The text that a JSON text stands for.
pub open spec fn reason_field(text: Seq<char>) -> Option<Seq<char>> {
    match json_node(text) {
        Ok(NodeModel::Text(reason)) => Some(reason),
        _ => None,
    }
}

/// The verdict made of its three fields.
pub open spec fn verdict_from(
    verdict: Option<Seq<char>>,
    ids: Option<Seq<char>>,
    reason: Option<Seq<char>>,
) -> Option<VerdictModel> {
    match (verdict, ids, reason) {
        (Some(verdict), Some(ids), Some(reason)) => match (
            verdict_field(verdict),
            rule_ids_field(ids),
            reason_field(reason),
        ) {
            (Some(verdict), Some(invariant_ids), Some(reason)) => Some(
                VerdictModel { verdict, invariant_ids, reason },
            ),
            _ => None,
        },
        _ => None,
    }
}

/// The names of the three fields.
pub open spec fn is_verdict_key(key: Option<Seq<char>>) -> bool {
    key == Some("verdict"@) || key == Some("invariant_ids"@) || key == Some("reason"@)
}

/// Whether every member is one of the three fields.
pub open spec fn only_verdict_keys(list: Seq<(Option<Seq<char>>, Seq<char>)>) -> bool {
    forall|i: int| 0 <= i < list.len() ==> is_verdict_key((#[trigger] list[i]).0)
}

/// The verdict that a JSON text stands for: exactly its three fields, each named once, or listed.
pub open spec fn verdict_in(text: Seq<char>) -> Option<VerdictModel> {
    match json_node(text) {
        Ok(NodeModel::Object(_)) => {
            let list = members(text);
            if only_verdict_keys(list) && distinct_names(list) {
                verdict_from(
                    named_value(list, "verdict"@),
                    named_value(list, "invariant_ids"@),
                    named_value(list, "reason"@),
                )
            } else {
                None
            }
        },
        Ok(NodeModel::Array(items)) => if items.len() == 3 {
            verdict_from(Some(items[0]), Some(items[1]), Some(items[2]))
        } else {
            None
        },
        _ => None,
    }
}

/// Whether there is a rule with this identifier.
pub open spec fn has_rule(rules: Seq<RuleModel>, id: i64) -> bool {
    exists|i: int| 0 <= i < rules.len() && (#[trigger] rules[i]).id == id
}

/// Whether every identifier is that of a rule.
pub open spec fn all_rules_known(ids: Seq<i64>, rules: Seq<RuleModel>) -> bool {
    forall|i: int| 0 <= i < ids.len() ==> has_rule(rules, #[trigger] ids[i])
}

/// Why a verdict is refused, if it is.
pub open spec fn verdict_error(result: VerdictModel, rules: Seq<RuleModel>) -> Option<Seq<char>> {
    let ids = result.invariant_ids;
    let silent = trim(result.reason).len() == 0;
    if !all_rules_known(ids, rules) {
        Some("проверка сослалась на неизвестный инвариант"@)
    } else if !ids.no_duplicates() {
        Some("проверка повторила ID инварианта"@)
    } else {
        match result.verdict {
            VerificationVerdict::Allow => if ids.len() > 0 {
                Some("разрешающий вердикт содержит ID инварианта"@)
            } else {
                None
            },
            VerificationVerdict::CompliantRefusal | VerificationVerdict::Violation => if ids.len()
                == 0 {
                Some("вердикт не содержит ID инварианта"@)
            } else if silent {
                Some("вердикт не содержит причину"@)
            } else {
                None
            },
            VerificationVerdict::Uncertain => if silent {
                Some("вердикт не содержит причину"@)
            } else {
                None
            },
        }
    }
}

/// The verdict that an answer of the check stands for, or why it is refused.
pub open spec fn verdict_of(text: Seq<char>, rules: Seq<RuleModel>) -> Result<
    VerdictModel,
    Seq<char>,
> {
    match verdict_in(text) {
        None => Err("проверка вернула невалидный JSON-вердикт"@),
        Some(result) => match verdict_error(result, rules) {
            Some(message) => Err(message),
            None => Ok(result),
        },
    }
}

fn read_verdict_name(name: &str) -> (r: Option<VerificationVerdict>)
    ensures
        r == verdict_named(name@),
{
    if same(name, "allow") {
        Some(VerificationVerdict::Allow)
    } else if same(name, "compliant_refusal") {
        Some(VerificationVerdict::CompliantRefusal)
    } else if same(name, "violation") {
        Some(VerificationVerdict::Violation)
    } else if same(name, "uncertain") {
        Some(VerificationVerdict::Uncertain)
    } else {
        None
    }
}

fn read_verdict(text: &str) -> (r: Option<VerificationVerdict>)
    ensures
        r == verdict_field(text@),
{
    match read_node(text) {
        Ok(JsonNode::Text(name)) => read_verdict_name(name.as_str()),
        Ok(JsonNode::Object(_)) => {
            let list = read_members(&Layout::of(text));
            let ghost model = members_view(list@);
            if list.len() != 1 {
                return None;
            }
            proof {
                assert(model[0] == (view_option(list@[0].0), list@[0].1@));
            }
            match (read_node(list[0].1.as_str()), &list[0].0) {
                (Ok(JsonNode::Null), Some(name)) => read_verdict_name(name.as_str()),
                _ => None,
            }
        },
        _ => None,
    }
}

proof fn lemma_rule_ids_none(items: Seq<Seq<char>>, n: int)
    requires
        0 <= n <= items.len(),
        rule_ids(items.take(n)) is None,
    ensures
        rule_ids(items) is None,
    decreases items.len(),
{
    if n == items.len() {
        assert(items.take(n) =~= items);
    } else {
        assert(items.drop_last().take(n) =~= items.take(n));
        lemma_rule_ids_none(items.drop_last(), n);
    }
}

fn read_rule_ids(text: &str) -> (r: Option<Vec<i64>>)
    ensures
        match r {
            Some(ids) => rule_ids_field(text@) == Some(ids@),
            None => rule_ids_field(text@) is None,
        },
{
    match read_node(text) {
        Ok(JsonNode::Array(items)) => {
            let ghost model = views(items@);
            let mut out: Vec<i64> = Vec::new();
            let mut i: usize = 0;
            proof {
                assert(model.take(0).len() == 0);
                assert(out@ =~= Seq::<i64>::empty());
            }
            while i < items.len()
                invariant
                    i <= items@.len(),
                    model == views(items@),
                    json_node(text@) == Ok::<NodeModel, Seq<char>>(NodeModel::Array(model)),
                    rule_ids(model.take(i as int)) == Some(out@),
                decreases items.len() - i,
            {
                proof {
                    assert(model.take(i + 1).drop_last() =~= model.take(i as int));
                    assert(model.take(i + 1).last() == model[i as int]);
                }
                let id = match read_node(items[i].as_str()) {
                    Ok(JsonNode::Number(digits)) => parse_i64(digits.as_str()),
                    _ => None,
                };
                match id {
                    Some(id) => {
                        out.push(id);
                    },
                    None => {
                        proof {
                            lemma_rule_ids_none(model, i + 1);
                        }
                        return None;
                    },
                }
                i += 1;
            }
            proof {
                assert(model.take(i as int) =~= model);
            }
            Some(out)
        },
        _ => None,
    }
}

fn read_reason(text: &str) -> (r: Option<String>)
    ensures
        view_option(r) == reason_field(text@),
{
    match read_node(text) {
        Ok(JsonNode::Text(reason)) => Some(reason),
        _ => None,
    }
}

fn read_fields(verdict: &Option<String>, ids: &Option<String>, reason: &Option<String>) -> (r: Option<
    VerificationResult,
>)
    ensures
        view_option(r) == verdict_from(
            view_option(*verdict),
            view_option(*ids),
            view_option(*reason),
        ),
{
    match (verdict, ids, reason) {
        (Some(verdict), Some(ids), Some(reason)) => {
            let verdict = read_verdict(verdict.as_str());
            let ids = read_rule_ids(ids.as_str());
            let reason = read_reason(reason.as_str());
            match (verdict, ids, reason) {
                (Some(verdict), Some(invariant_ids), Some(reason)) => Some(
                    VerificationResult { verdict, invariant_ids, reason },
                ),
                _ => None,
            }
        },
        _ => None,
    }
}

fn has_only_verdict_keys(list: &Vec<(Option<String>, String)>) -> (r: bool)
    ensures
        r == only_verdict_keys(members_view(list@)),
{
    let ghost model = members_view(list@);
    let mut i: usize = 0;
    while i < list.len()
        invariant
            i <= list@.len(),
            model == members_view(list@),
            forall|k: int| 0 <= k < i ==> is_verdict_key((#[trigger] model[k]).0),
        decreases list.len() - i,
    {
        let name = &list[i].0;
        proof {
            assert(model[i as int].0 == view_option(*name));
        }
        if !(names_field(name, "verdict") || names_field(name, "invariant_ids") || names_field(
            name,
            "reason",
        )) {
            proof {
                assert(!is_verdict_key(model[i as int].0));
            }
            return false;
        }
        i += 1;
    }
    true
}

fn read_result(text: &str) -> (r: Option<VerificationResult>)
    ensures
        view_option(r) == verdict_in(text@),
{
    match read_node(text) {
        Ok(JsonNode::Object(_)) => {
            let list = read_members(&Layout::of(text));
            if !has_only_verdict_keys(&list) || !has_distinct_names(&list) {
                return None;
            }
            let verdict = find_named(&list, "verdict");
            let ids = find_named(&list, "invariant_ids");
            let reason = find_named(&list, "reason");
            read_fields(&verdict, &ids, &reason)
        },
        Ok(JsonNode::Array(items)) => {
            if items.len() != 3 {
                return None;
            }
            let verdict = Some(items[0].clone());
            let ids = Some(items[1].clone());
            let reason = Some(items[2].clone());
            read_fields(&verdict, &ids, &reason)
        },
        _ => None,
    }
}

/// The position of the first rule with an identifier, or the number of rules.
pub open spec fn rule_index(rules: Seq<RuleModel>, id: i64) -> nat
    decreases rules.len(),
{
    if rules.len() == 0 || rules[0].id == id {
        0
    } else {
        1 + rule_index(rules.skip(1), id)
    }
}

proof fn lemma_rule_index(rules: Seq<RuleModel>, id: i64)
    ensures
        rule_index(rules, id) <= rules.len(),
        rule_index(rules, id) < rules.len() ==> rules[rule_index(rules, id) as int].id == id,
        forall|i: int| 0 <= i < rule_index(rules, id) ==> (#[trigger] rules[i]).id != id,
        has_rule(rules, id) <==> rule_index(rules, id) < rules.len(),
    decreases rules.len(),
{
    if rules.len() > 0 && rules[0].id != id {
        lemma_rule_index(rules.skip(1), id);
        assert forall|i: int| 0 <= i < rule_index(rules, id) implies (#[trigger] rules[i]).id
            != id by {
            if i > 0 {
                assert(rules[i] == rules.skip(1)[i - 1]);
            }
        }
        if has_rule(rules, id) {
            let k = choose|k: int| 0 <= k < rules.len() && (#[trigger] rules[k]).id == id;
            assert(rules.skip(1)[k - 1].id == id);
        }
    }
}

fn find_rule(rules: &Vec<Invariant>, id: i64) -> (r: usize)
    ensures
        r == rule_index(views(rules@), id),
        r <= rules@.len(),
{
    let ghost model = views(rules@);
    let mut i: usize = 0;
    while i < rules.len() && rules[i].id != id
        invariant
            i <= rules@.len(),
            model == views(rules@),
            forall|k: int| 0 <= k < i ==> (#[trigger] model[k]).id != id,
        decreases rules.len() - i,
    {
        proof {
            assert(model[i as int].id != id);
        }
        i += 1;
    }
    proof {
        lemma_rule_index(model, id);
        let found = rule_index(model, id) as int;
        if found < i {
            assert(model[found].id != id);
        }
        if i < found {
            assert(model[i as int].id != id);
        }
    }
    i
}

fn distinct_ids(ids: &Vec<i64>) -> (r: bool)
    ensures
        r == ids@.no_duplicates(),
{
    let mut i: usize = 0;
    while i < ids.len()
        invariant
            i <= ids@.len(),
            forall|a: int, b: int| 0 <= a < b < i ==> ids@[a] != ids@[b],
        decreases ids.len() - i,
    {
        let mut j: usize = 0;
        while j < i
            invariant
                j <= i < ids@.len(),
                forall|a: int| 0 <= a < j ==> ids@[a] != ids@[i as int],
            decreases i - j,
        {
            if ids[j] == ids[i] {
                return false;
            }
            j += 1;
        }
        i += 1;
    }
    true
}

/// Reads the verdict from an answer of the check.
pub fn parse_verification_result(text: &str, invariants: &Vec<Invariant>) -> (r: Result<
    VerificationResult,
    String,
>)
    ensures
        agrees(r, verdict_of(text@, views(invariants@))),
{
    let result = match read_result(text) {
        Some(result) => result,
        None => return Err("проверка вернула невалидный JSON-вердикт".to_owned()),
    };
    let ghost rules = views(invariants@);
    let ghost ids = result.invariant_ids@;
    let mut i: usize = 0;
    while i < result.invariant_ids.len()
        invariant
            i <= result.invariant_ids@.len(),
            ids == result.invariant_ids@,
            rules == views(invariants@),
            verdict_in(text@) == Some(result@),
            forall|k: int| 0 <= k < i ==> has_rule(rules, #[trigger] ids[k]),
        decreases result.invariant_ids.len() - i,
    {
        proof {
            lemma_rule_index(rules, ids[i as int]);
        }
        if find_rule(invariants, result.invariant_ids[i]) == invariants.len() {
            proof {
                assert(!has_rule(rules, ids[i as int]));
                assert(!all_rules_known(ids, rules));
            }
            return Err("проверка сослалась на неизвестный инвариант".to_owned());
        }
        i += 1;
    }
    proof {
        assert(all_rules_known(ids, rules));
    }
    if !distinct_ids(&result.invariant_ids) {
        return Err("проверка повторила ID инварианта".to_owned());
    }
    let silent = is_blank(result.reason.as_str());
    match result.verdict {
        VerificationVerdict::Allow => {
            if result.invariant_ids.len() > 0 {
                return Err("разрешающий вердикт содержит ID инварианта".to_owned());
            }
        },
        VerificationVerdict::CompliantRefusal | VerificationVerdict::Violation => {
            if result.invariant_ids.len() == 0 {
                return Err("вердикт не содержит ID инварианта".to_owned());
            }
            if silent {
                return Err("вердикт не содержит причину".to_owned());
            }
        },
        VerificationVerdict::Uncertain => {
            if silent {
                return Err("вердикт не содержит причину".to_owned());
            }
        },
    }
    Ok(result)
}

/// The line of a rule.
pub open spec fn rule_line(rule: RuleModel) -> Seq<char> {
    "#"@ + signed_decimal(rule.id as int) + ": "@ + rule.content
}

/// Writes the line of a rule.
pub fn write_rule_line(rule: &Invariant) -> (r: String)
    ensures
        r@ == rule_line(rule@),
{
    "#".to_owned().concat(signed_text(rule.id).as_str()).concat(": ").concat(rule.content.as_str())
}

/// The lines of the rules with these identifiers, or the refusal of the first that is missing.
pub open spec fn cited_rules(rules: Seq<RuleModel>, ids: Seq<i64>) -> Result<
    Seq<Seq<char>>,
    Seq<char>,
>
    decreases ids.len(),
{
    if ids.len() == 0 {
        Ok(Seq::empty())
    } else {
        match cited_rules(rules, ids.drop_last()) {
            Err(message) => Err(message),
            Ok(head) => {
                let at = rule_index(rules, ids.last()) as int;
                if at < rules.len() {
                    Ok(head.push(rule_line(rules[at])))
                } else {
                    Err("инвариант #"@ + signed_decimal(ids.last() as int) + " не найден"@)
                }
            },
        }
    }
}

/// The refusal that stands in place of an answer that breaks rules.
pub open spec fn refusal_text(rules: Seq<RuleModel>, ids: Seq<i64>) -> Result<
    Seq<char>,
    Seq<char>,
> {
    match cited_rules(rules, ids) {
        Err(message) => Err(message),
        Ok(lines) => Ok(
            "Не могу выполнить запрос: предложенный ответ противоречит активному инварианту.\n"@
                + join(lines, "\n"@),
        ),
    }
}

proof fn lemma_cited_error(rules: Seq<RuleModel>, ids: Seq<i64>, n: int)
    requires
        0 <= n <= ids.len(),
        cited_rules(rules, ids.take(n)) is Err,
    ensures
        cited_rules(rules, ids) == cited_rules(rules, ids.take(n)),
    decreases ids.len(),
{
    if n == ids.len() {
        assert(ids.take(n) =~= ids);
    } else {
        assert(ids.drop_last().take(n) =~= ids.take(n));
        lemma_cited_error(rules, ids.drop_last(), n);
    }
}

/// The refusal that stands in place of an answer that breaks rules.
pub fn invariant_refusal(invariants: &Vec<Invariant>, ids: &Vec<i64>) -> (r: Result<String, String>)
    ensures
        agrees(r, refusal_text(views(invariants@), ids@)),
{
    let ghost rules = views(invariants@);
    let mut lines: Vec<String> = Vec::new();
    let mut i: usize = 0;
    proof {
        assert(ids@.take(0).len() == 0);
        assert(views(lines@) =~= Seq::<Seq<char>>::empty());
    }
    while i < ids.len()
        invariant
            i <= ids@.len(),
            rules == views(invariants@),
            cited_rules(rules, ids@.take(i as int)) == Ok::<Seq<Seq<char>>, Seq<char>>(
                views(lines@),
            ),
        decreases ids.len() - i,
    {
        proof {
            assert(ids@.take(i + 1).drop_last() =~= ids@.take(i as int));
            assert(ids@.take(i + 1).last() == ids@[i as int]);
        }
        let at = find_rule(invariants, ids[i]);
        if at == invariants.len() {
            proof {
                lemma_cited_error(rules, ids@, i + 1);
            }
            return Err(
                "инвариант #".to_owned().concat(signed_text(ids[i]).as_str()).concat(" не найден"),
            );
        }
        lines.push(write_rule_line(&invariants[at]));
        i += 1;
    }
    proof {
        assert(ids@.take(i as int) =~= ids@);
    }
    Ok(
        "Не могу выполнить запрос: предложенный ответ противоречит активному инварианту.\n".to_owned().concat(
            joined(lines.as_slice(), "\n").as_str(),
        ),
    )
}

/// An accepted verdict that a rule is broken always gives a refusal that cites the rules.
pub proof fn law_accepted_violation_has_refusal(text: Seq<char>, rules: Seq<RuleModel>)
    requires
        verdict_of(text, rules) is Ok,
    ensures
        refusal_text(rules, verdict_of(text, rules)->Ok_0.invariant_ids) is Ok,
{
    let ids = verdict_of(text, rules)->Ok_0.invariant_ids;
    lemma_known_rules_cited(rules, ids);
}

proof fn lemma_known_rules_cited(rules: Seq<RuleModel>, ids: Seq<i64>)
    requires
        all_rules_known(ids, rules),
    ensures
        cited_rules(rules, ids) is Ok,
    decreases ids.len(),
{
    if ids.len() > 0 {
        assert forall|i: int| 0 <= i < ids.drop_last().len() implies has_rule(
            rules,
            #[trigger] ids.drop_last()[i],
        ) by {
            assert(has_rule(rules, ids[i]));
        }
        lemma_known_rules_cited(rules, ids.drop_last());
        assert(has_rule(rules, ids[ids.len() - 1]));
        lemma_rule_index(rules, ids.last());
    }
}

/// A verdict is the one that its name says, with the rules and the reason that stand beside it.
pub proof fn law_verdict_is_the_one_it_names(
    verdict: Seq<char>,
    ids: Seq<char>,
    reason: Seq<char>,
    name: Seq<char>,
    items: Seq<Seq<char>>,
    why: Seq<char>,
)
    requires
        json_node(verdict) == Ok::<NodeModel, Seq<char>>(NodeModel::Text(name)),
        json_node(ids) == Ok::<NodeModel, Seq<char>>(NodeModel::Array(items)),
        json_node(reason) == Ok::<NodeModel, Seq<char>>(NodeModel::Text(why)),
        rule_ids(items) is Some,
    ensures
        match verdict_from(Some(verdict), Some(ids), Some(reason)) {
            Some(result) => {
                &&& result.reason == why
                &&& result.invariant_ids == rule_ids(items)->Some_0
                &&& result.verdict == VerificationVerdict::Allow <==> name == "allow"@
                &&& result.verdict == VerificationVerdict::CompliantRefusal <==> name
                    == "compliant_refusal"@
                &&& result.verdict == VerificationVerdict::Violation <==> name == "violation"@
                &&& result.verdict == VerificationVerdict::Uncertain <==> name == "uncertain"@
            },
            None => name != "allow"@ && name != "compliant_refusal"@ && name != "violation"@
                && name != "uncertain"@,
        },
{
    reveal_strlit("allow");
    reveal_strlit("compliant_refusal");
    reveal_strlit("violation");
    reveal_strlit("uncertain");
    assert("allow"@.len() == 5 && "compliant_refusal"@.len() == 17);
    assert("violation"@[0] == 'v' && "uncertain"@[0] == 'u');
}

/// The numbers of rules that a verdict lists are read one by one.
pub proof fn law_cited_numbers_are_read(items: Seq<Seq<char>>, i: int)
    requires
        rule_ids(items) is Some,
        0 <= i < items.len(),
    ensures
        rule_ids(items)->Some_0.len() == items.len(),
        json_node(items[i]) matches Ok(NodeModel::Number(digits)) && i64_of(digits) == Some(
            rule_ids(items)->Some_0[i] as int,
        ),
    decreases items.len(),
{
    let head = items.drop_last();
    if head.len() > 0 {
        if i < head.len() {
            law_cited_numbers_are_read(head, i);
        } else {
            law_cited_numbers_are_read(head, 0);
        }
    } else {
        assert(rule_ids(head) == Some(Seq::<i64>::empty()));
    }
}

/// A verdict that is accepted is consistent: it cites known rules, each once; it allows without citing
/// any, objects only with a rule and a reason, and doubts only with a reason.
pub proof fn law_accepted_verdicts_are_consistent(
    result: VerdictModel,
    rules: Seq<RuleModel>,
    i: int,
)
    requires
        verdict_error(result, rules) is None,
    ensures
        0 <= i < result.invariant_ids.len() ==> exists|k: int|
            0 <= k < rules.len() && (#[trigger] rules[k]).id == result.invariant_ids[i],
        result.invariant_ids.no_duplicates(),
        match result.verdict {
            VerificationVerdict::Allow => result.invariant_ids.len() == 0,
            VerificationVerdict::CompliantRefusal | VerificationVerdict::Violation =>
            result.invariant_ids.len() > 0 && trim(result.reason).len() > 0,
            VerificationVerdict::Uncertain => trim(result.reason).len() > 0,
        },
{
    if 0 <= i < result.invariant_ids.len() {
        assert(has_rule(rules, result.invariant_ids[i]));
    }
}

/// A verdict that is consistent is accepted; `places` says where the rules stand that it cites.
pub proof fn law_consistent_verdicts_are_accepted(
    result: VerdictModel,
    rules: Seq<RuleModel>,
    places: Seq<int>,
)
    requires
        places.len() == result.invariant_ids.len(),
        forall|i: int|
            0 <= i < places.len() ==> 0 <= #[trigger] places[i] < rules.len() && rules[places[i]].id
                == result.invariant_ids[i],
        result.invariant_ids.no_duplicates(),
        match result.verdict {
            VerificationVerdict::Allow => result.invariant_ids.len() == 0,
            VerificationVerdict::CompliantRefusal | VerificationVerdict::Violation =>
            result.invariant_ids.len() > 0 && trim(result.reason).len() > 0,
            VerificationVerdict::Uncertain => trim(result.reason).len() > 0,
        },
    ensures
        verdict_error(result, rules) is None,
{
    let ids = result.invariant_ids;
    assert forall|i: int| 0 <= i < ids.len() implies has_rule(rules, #[trigger] ids[i]) by {
        assert(rules[places[i]].id == ids[i]);
    }
}

proof fn lemma_cited_line(rules: Seq<RuleModel>, ids: Seq<i64>, i: int)
    requires
        cited_rules(rules, ids) is Ok,
        0 <= i < ids.len(),
    ensures
        cited_rules(rules, ids)->Ok_0.len() == ids.len(),
        exists|k: int|
            0 <= k < rules.len() && (#[trigger] rules[k]).id == ids[i] && cited_rules(
                rules,
                ids,
            )->Ok_0[i] == rule_line(rules[k]),
    decreases ids.len(),
{
    let head = ids.drop_last();
    lemma_rule_index(rules, ids.last());
    if head.len() > 0 {
        if i < head.len() {
            lemma_cited_line(rules, head, i);
            let k = choose|k: int|
                0 <= k < rules.len() && (#[trigger] rules[k]).id == head[i] && cited_rules(
                    rules,
                    head,
                )->Ok_0[i] == rule_line(rules[k]);
            assert(rules[k].id == ids[i]);
        } else {
            lemma_cited_line(rules, head, 0);
            assert(rules[rule_index(rules, ids.last()) as int].id == ids[i]);
        }
    } else {
        assert(rules[rule_index(rules, ids.last()) as int].id == ids[i]);
    }
}

/// A refusal names every rule that was broken, by its number and its text.
pub proof fn law_refusal_cites_the_broken_rules(rules: Seq<RuleModel>, ids: Seq<i64>, i: int)
    requires
        refusal_text(rules, ids) is Ok,
        0 <= i < ids.len(),
    ensures
        exists|k: int|
            0 <= k < rules.len() && (#[trigger] rules[k]).id == ids[i] && has_part(
                refusal_text(rules, ids)->Ok_0,
                "#"@ + signed_decimal(rules[k].id as int) + ": "@ + rules[k].content,
            ),
{
    let lines = cited_rules(rules, ids)->Ok_0;
    let text = refusal_text(rules, ids)->Ok_0;
    lemma_cited_line(rules, ids, i);
    let k = choose|k: int|
        0 <= k < rules.len() && (#[trigger] rules[k]).id == ids[i] && lines[i] == rule_line(
            rules[k],
        );
    lemma_joined_part(lines, "\n"@, i);
    let head = "Не могу выполнить запрос: предложенный ответ противоречит активному инварианту.\n"@;
    lemma_middle_part(head, join(lines, "\n"@), Seq::empty());
    assert(head + join(lines, "\n"@) + Seq::<char>::empty() =~= text);
    lemma_part_of_part(text, join(lines, "\n"@), lines[i]);
    assert(rules[k].id == ids[i] && has_part(text, rule_line(rules[k])));
}

} // verus!
