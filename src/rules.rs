//! The inline rules text that follows the document outside script mode.
use vstd::prelude::*;
use crate::model::{ExtraSettings, RulesetContent};
use crate::remark::names_of;
use crate::text::{begins_with, chars_of, lines, push_chars, push_text, starts_with, string_of, trim, trim_chars};
use crate::web::{common_rule, normalize_rules_lines, rule_lines, transform_rule_to_common};
use crate::yaml::{find_key, lookup, Yaml};

verus! {

/// An inline directive with a leading `FINAL` read as `MATCH`.
pub open spec fn final_as_match(d: Seq<char>) -> Seq<char> {
    if starts_with(d, "FINAL"@) {
        "MATCH"@ + d.skip(5)
    } else {
        d
    }
}

/// The rules a ruleset contributes, each routed to its group; `conv` is its
/// text converted to Surge-style rule lines.
pub open spec fn ruleset_rules(r: RulesetContent, conv: Seq<char>) -> Seq<Seq<char>> {
    let c = r.rule_content@;
    if c.len() == 0 {
        seq![]
    } else if starts_with(c, "[]"@) {
        seq![common_rule(final_as_match(trim(c.skip(2))), r.group@)]
    } else {
        let ls = rule_lines(lines(conv));
        Seq::new(ls.len(), |i: int| common_rule(ls[i], r.group@))
    }
}

/// The rules as list items, one `  - <rule>` line each.
pub open spec fn rule_items(ls: Seq<Seq<char>>) -> Seq<char>
    decreases ls.len(),
{
    if ls.len() == 0 {
        seq![]
    } else {
        rule_items(ls.drop_last()) + "  - "@ + ls.last() + "\n"@
    }
}

/// The items of all rulesets, in order.
pub open spec fn all_rule_items(rs: Seq<RulesetContent>, cs: Seq<Seq<char>>) -> Seq<char>
    decreases rs.len(),
{
    if rs.len() == 0 {
        seq![]
    } else {
        all_rule_items(rs.drop_last(), cs.drop_last()) + rule_items(
            ruleset_rules(rs.last(), cs.last()),
        )
    }
}

/// The key of the rule list under either naming convention.
pub open spec fn rules_field(new_field_name: bool) -> Seq<char> {
    if new_field_name {
        "rules"@
    } else {
        "Rule"@
    }
}

/// The strings of a list, in order; other items are passed over.
pub open spec fn text_items(l: Seq<Yaml>) -> Seq<Seq<char>>
    decreases l.len(),
{
    if l.len() == 0 {
        seq![]
    } else {
        match l.last() {
            Yaml::Text(s) => text_items(l.drop_last()).push(s@),
            _ => text_items(l.drop_last()),
        }
    }
}

/// The rules the document already lists under `field`.
pub open spec fn template_rules(doc: Yaml, field: Seq<char>) -> Seq<Seq<char>> {
    match doc {
        Yaml::Dict(e) => match lookup(e@, field) {
            Some(Yaml::List(l)) => text_items(l@),
            _ => seq![],
        },
        _ => seq![],
    }
}

/// The rules section under `rules` (or legacy `Rule`): the rules kept from
/// the template, then those of the rulesets.
pub open spec fn rules_section(
    kept: Seq<Seq<char>>,
    rs: Seq<RulesetContent>,
    cs: Seq<Seq<char>>,
    new_field_name: bool,
) -> Seq<char> {
    "\n"@ + rules_field(new_field_name) + ":\n"@ + rule_items(kept) + all_rule_items(rs, cs)
}

fn template_rules_of(doc: &Yaml, field: &str) -> (r: Vec<String>)
    ensures
        names_of(r@) == template_rules(*doc, field@),
{
    let mut r: Vec<String> = Vec::new();
    assert(names_of(r@) =~= seq![]);
    match doc {
        Yaml::Dict(e) => match find_key(e, field) {
            Some(k) => {
                proof {
                    crate::yaml::lemma_lookup_first(e@, field@, k as int);
                }
                match &e[k].1 {
                    Yaml::List(l) => {
                        let mut i: usize = 0;
                        assert(l@.take(0) =~= seq![]);
                        while i < l.len()
                            invariant
                                i <= l@.len(),
                                names_of(r@) == text_items(l@.take(i as int)),
                            decreases l@.len() - i,
                        {
                            assert(l@.take(i + 1).drop_last() =~= l@.take(i as int));
                            match &l[i] {
                                Yaml::Text(s) => {
                                    let ghost before = names_of(r@);
                                    r.push(s.clone());
                                    assert(names_of(r@) =~= before.push(s@));
                                },
                                _ => {},
                            }
                            i += 1;
                        }
                        assert(l@.take(i as int) =~= l@);
                    },
                    _ => {},
                }
            },
            None => {
                proof {
                    crate::yaml::lemma_lookup_none(e@, field@);
                }
            },
        },
        _ => {},
    }
    r
}

fn push_items(out: &mut Vec<char>, ls: &Vec<String>)
    ensures
        final(out)@ == old(out)@ + rule_items(names_of(ls@)),
{
    let ghost start = out@;
    let ghost all = names_of(ls@);
    let mut i: usize = 0;
    assert(all.take(0) =~= seq![]);
    assert(out@ =~= start + rule_items(all.take(0)));
    while i < ls.len()
        invariant
            i <= ls@.len(),
            all == names_of(ls@),
            out@ == start + rule_items(all.take(i as int)),
        decreases ls@.len() - i,
    {
        assert(all.take(i + 1).drop_last() =~= all.take(i as int));
        push_text(out, "  - ");
        let l = chars_of(ls[i].as_str());
        push_chars(out, &l);
        push_text(out, "\n");
        assert(out@ =~= start + rule_items(all.take(i + 1)));
        i += 1;
    }
    assert(all.take(i as int) =~= all);
}

fn ruleset_rules_of(r: &RulesetContent, conv: &String) -> (v: Vec<String>)
    ensures
        names_of(v@) == ruleset_rules(*r, conv@),
{
    let c = chars_of(r.rule_content.as_str());
    let mut v: Vec<String> = Vec::new();
    proof {
        reveal_strlit("[]");
        reveal_strlit("FINAL");
    }
    if c.len() == 0 {
        assert(names_of(v@) =~= seq![]);
        return v;
    }
    if begins_with(&c, "[]") {
        let d = trim_chars(&c, 2, c.len());
        assert(c@.subrange(2, c@.len() as int) =~= c@.skip(2));
        let d2 = if begins_with(&d, "FINAL") {
            let mut m = chars_of("MATCH");
            let rest = crate::text::slice_chars(&d, 5, d.len());
            assert(rest@ =~= d@.skip(5));
            push_chars(&mut m, &rest);
            m
        } else {
            d
        };
        let s = string_of(d2.as_slice());
        v.push(transform_rule_to_common(s.as_str(), r.group.as_str()));
        assert(names_of(v@) =~= ruleset_rules(*r, conv@));
        return v;
    }
    let ls = normalize_rules_lines(conv.as_str());
    let mut i: usize = 0;
    while i < ls.len()
        invariant
            i <= ls@.len(),
            names_of(ls@) == rule_lines(lines(conv@)),
            v@.len() == i,
            forall|k: int| 0 <= k < i ==> #[trigger] v@[k]@ == common_rule(ls@[k]@, r.group@),
        decreases ls@.len() - i,
    {
        v.push(transform_rule_to_common(ls[i].as_str(), r.group.as_str()));
        i += 1;
    }
    assert forall|k: int| 0 <= k < v@.len() implies names_of(v@)[k] == ruleset_rules(*r, conv@)[k] by {
        assert(names_of(ls@)[k] == ls@[k]@);
    }
    assert(names_of(v@) =~= ruleset_rules(*r, conv@));
    v
}

/// The rules section: unless `overwrite_original_rules`, the rules the
/// document lists under the section's key, then each ruleset's rules routed
/// to its group (`converted[i]` is ruleset `i` as Surge-style rule lines),
/// inline `GEOIP` and `FINAL`/`MATCH` directives included.
pub fn ruleset_to_clash_str(
    doc: &Yaml,
    ruleset_content_array: &Vec<RulesetContent>,
    converted: &Vec<String>,
    overwrite_original_rules: bool,
    new_field_name: bool,
) -> (r: String)
    requires
        converted@.len() == ruleset_content_array@.len(),
    ensures
        r@ == rules_section(
            if overwrite_original_rules {
                seq![]
            } else {
                template_rules(*doc, rules_field(new_field_name))
            },
            ruleset_content_array@,
            names_of(converted@),
            new_field_name,
        ),
{
    let rs = ruleset_content_array;
    let ghost cs = names_of(converted@);
    let field = if new_field_name {
        "rules"
    } else {
        "Rule"
    };
    let mut out = chars_of("\n");
    push_text(&mut out, field);
    push_text(&mut out, ":\n");
    let kept = if overwrite_original_rules {
        Vec::new()
    } else {
        template_rules_of(doc, field)
    };
    assert(overwrite_original_rules ==> names_of(kept@) =~= seq![]);
    push_items(&mut out, &kept);
    let ghost head = out@;
    let mut i: usize = 0;
    assert(rs@.take(0) =~= seq![]);
    assert(out@ =~= head + all_rule_items(rs@.take(0), cs.take(0)));
    while i < rs.len()
        invariant
            i <= rs@.len() == cs.len(),
            cs == names_of(converted@),
            out@ == head + all_rule_items(rs@.take(i as int), cs.take(i as int)),
        decreases rs@.len() - i,
    {
        assert(rs@.take(i + 1).drop_last() =~= rs@.take(i as int));
        assert(cs.take(i + 1).drop_last() =~= cs.take(i as int));
        let v = ruleset_rules_of(&rs[i], &converted[i]);
        push_items(&mut out, &v);
        assert(out@ =~= head + all_rule_items(rs@.take(i + 1), cs.take(i + 1)));
        i += 1;
    }
    assert(rs@.take(i as int) =~= rs@);
    assert(cs.take(i as int) =~= cs);
    assert(out@ =~= rules_section(
        names_of(kept@),
        rs@,
        cs,
        new_field_name,
    ));
    string_of(out.as_slice())
}

/// Whether the settings ask for rules listed after the document: rule
/// generation on, neither script nor node-list mode.
pub open spec fn inline_rules(ext: ExtraSettings) -> bool {
    ext.enable_rule_generator && !ext.clash_script && !ext.nodelist
}

/// What follows the serialized document `doc`: its rules section in
/// inline-rule mode, else nothing.
pub fn rules_suffix(
    doc: &Yaml,
    ruleset_content_array: &Vec<RulesetContent>,
    converted: &Vec<String>,
    ext: &ExtraSettings,
) -> (r: String)
    requires
        converted@.len() == ruleset_content_array@.len(),
    ensures
        r@ == if inline_rules(*ext) {
            rules_section(
                if ext.overwrite_original_rules {
                    seq![]
                } else {
                    template_rules(*doc, rules_field(ext.clash_new_field_name))
                },
                ruleset_content_array@,
                names_of(converted@),
                ext.clash_new_field_name,
            )
        } else {
            seq![]
        },
{
    if ext.enable_rule_generator && !ext.clash_script && !ext.nodelist {
        ruleset_to_clash_str(
            doc,
            ruleset_content_array,
            converted,
            ext.overwrite_original_rules,
            ext.clash_new_field_name,
        )
    } else {
        String::new()
    }
}

} // verus!
