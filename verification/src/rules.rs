use vstd::prelude::*;

use crate::alert_error::ContractError;
use crate::bytes::bytes_equal;

verus! {

/// Largest number of rule descriptors an alert may carry.
pub const MAX_RULES: usize = 50;

/// The bytes of the descriptor `rule:transfer`.
pub open spec fn transfer_descriptor() -> Seq<u8> {
    seq![114u8, 117u8, 108u8, 101u8, 58u8, 116u8, 114u8, 97u8, 110u8, 115u8, 102u8, 101u8, 114u8]
}

/// The bytes of the descriptor `rule:mint`.
pub open spec fn mint_descriptor() -> Seq<u8> {
    seq![114u8, 117u8, 108u8, 101u8, 58u8, 109u8, 105u8, 110u8, 116u8]
}

/// A recognized rule descriptor: `rule:transfer` or `rule:mint`.
pub open spec fn is_rule_descriptor(rule: Seq<u8>) -> bool {
    rule == transfer_descriptor() || rule == mint_descriptor()
}

/// The verdict on `rules[i..]` given that `rules[..i]` passed: the first
/// entry that is not a recognized descriptor, or that repeats an earlier
/// entry, decides the error.
pub open spec fn rules_verdict_from(rules: Seq<Seq<u8>>, i: int) -> Result<(), ContractError>
    decreases rules.len() - i,
{
    if i < 0 || i >= rules.len() {
        Ok(())
    } else if !is_rule_descriptor(rules[i]) {
        Err(ContractError::InvalidRuleDescriptor)
    } else if rules.take(i).contains(rules[i]) {
        Err(ContractError::DuplicateRule)
    } else {
        rules_verdict_from(rules, i + 1)
    }
}

/// The verdict on a whole rule list: more than [`MAX_RULES`] entries is
/// `TooManyRules`; otherwise the first offending entry decides.
pub open spec fn rules_verdict(rules: Seq<Seq<u8>>) -> Result<(), ContractError> {
    if rules.len() > MAX_RULES {
        Err(ContractError::TooManyRules)
    } else {
        rules_verdict_from(rules, 0)
    }
}

/// The byte strings of a list of descriptors.
pub open spec fn rules_view(rules: Seq<Vec<u8>>) -> Seq<Seq<u8>> {
    rules.map_values(|r: Vec<u8>| r@)
}

/// A rule list that passes validation: at most [`MAX_RULES`] entries, each a
/// recognized descriptor, none repeated.
pub open spec fn rules_valid(rules: Seq<Seq<u8>>) -> bool {
    rules_verdict(rules) is Ok
}

fn transfer_bytes() -> (v: Vec<u8>)
    ensures
        v@ == transfer_descriptor(),
{
    let v: Vec<u8> = vec![114u8, 117, 108, 101, 58, 116, 114, 97, 110, 115, 102, 101, 114];
    assert(v@ =~= transfer_descriptor());
    v
}

fn mint_bytes() -> (v: Vec<u8>)
    ensures
        v@ == mint_descriptor(),
{
    let v: Vec<u8> = vec![114u8, 117, 108, 101, 58, 109, 105, 110, 116];
    assert(v@ =~= mint_descriptor());
    v
}

/// Validates a single rule descriptor: only `rule:transfer` and `rule:mint`
/// are accepted.
pub fn validate_rule(rule: &Vec<u8>) -> (r: Result<(), ContractError>)
    ensures
        r is Ok <==> is_rule_descriptor(rule@),
        r matches Err(e) ==> e == ContractError::InvalidRuleDescriptor,
{
    let transfer = transfer_bytes();
    let mint = mint_bytes();
    if !bytes_equal(rule, &transfer) && !bytes_equal(rule, &mint) {
        return Err(ContractError::InvalidRuleDescriptor);
    }
    Ok(())
}

/// Validates a list of rule descriptors: at most [`MAX_RULES`] entries, each
/// recognized, and no descriptor twice.
pub fn validate_rules(rules: &Vec<Vec<u8>>) -> (r: Result<(), ContractError>)
    ensures
        r == rules_verdict(rules_view(rules@)),
{
    let ghost s = rules_view(rules@);
    if rules.len() > MAX_RULES {
        return Err(ContractError::TooManyRules);
    }
    let transfer = transfer_bytes();
    let mint = mint_bytes();
    let mut saw_transfer = false;
    let mut saw_mint = false;
    let mut i: usize = 0;
    while i < rules.len()
        invariant
            s == rules_view(rules@),
            s.len() == rules@.len(),
            s.len() <= MAX_RULES,
            0 <= i <= s.len(),
            transfer@ == transfer_descriptor(),
            mint@ == mint_descriptor(),
            rules_verdict_from(s, 0) == rules_verdict_from(s, i as int),
            saw_transfer == s.take(i as int).contains(transfer_descriptor()),
            saw_mint == s.take(i as int).contains(mint_descriptor()),
            forall|j: int| 0 <= j < i ==> is_rule_descriptor(#[trigger] s[j]),
        decreases s.len() - i,
    {
        let rule = &rules[i];
        assert(s[i as int] == rule@);
        validate_rule(rule)?;
        assert(s.take(i as int + 1) =~= s.take(i as int).push(s[i as int]));
        if bytes_equal(rule, &transfer) {
            if saw_transfer {
                return Err(ContractError::DuplicateRule);
            }
            saw_transfer = true;
            assert(!s.take(i as int).contains(s[i as int]));
            assert(s.take(i as int + 1)[i as int] == transfer_descriptor());
            assert(s.take(i as int + 1).contains(mint_descriptor()) == s.take(i as int).contains(
                mint_descriptor(),
            )) by {
                if s.take(i as int + 1).contains(mint_descriptor()) {
                    let k = choose|k: int|
                        0 <= k < s.take(i as int + 1).len() && #[trigger] s.take(i as int + 1)[k]
                            == mint_descriptor();
                    if k == i {
                        assert(mint_descriptor()[5] != transfer_descriptor()[5]);
                    } else {
                        assert(s.take(i as int)[k] == mint_descriptor());
                    }
                }
            }
        } else {
            if saw_mint {
                return Err(ContractError::DuplicateRule);
            }
            saw_mint = true;
            assert(!s.take(i as int).contains(s[i as int]));
            assert(s[i as int] == mint_descriptor());
            assert(s.take(i as int + 1)[i as int] == mint_descriptor());
            assert(s.take(i as int + 1).contains(transfer_descriptor()) == s.take(
                i as int,
            ).contains(transfer_descriptor())) by {
                if s.take(i as int + 1).contains(transfer_descriptor()) {
                    let k = choose|k: int|
                        0 <= k < s.take(i as int + 1).len() && #[trigger] s.take(i as int + 1)[k]
                            == transfer_descriptor();
                    if k == i {
                        assert(mint_descriptor()[5] != transfer_descriptor()[5]);
                    } else {
                        assert(s.take(i as int)[k] == transfer_descriptor());
                    }
                }
            }
        }
        i = i + 1;
    }
    Ok(())
}

/// A rule list passes exactly when it has at most [`MAX_RULES`] entries,
/// each a recognized descriptor, none repeated; a list within the size
/// bound with no repeats but some unrecognized entry is refused with
/// `InvalidRuleDescriptor`.
pub proof fn law_rule_list_verdict(rules: Seq<Seq<u8>>)
    ensures
        rules_valid(rules) <==> (rules.len() <= MAX_RULES && (forall|i: int|
            0 <= i < rules.len() ==> #[trigger] is_rule_descriptor(rules[i])) && rules.no_duplicates()),
        rules.len() > MAX_RULES ==> rules_verdict(rules) == Err::<(), ContractError>(ContractError::TooManyRules),
        rules.len() <= MAX_RULES && rules.no_duplicates() && (exists|i: int|
            0 <= i < rules.len() && !#[trigger] is_rule_descriptor(rules[i])) ==> rules_verdict(rules) == Err::<
            (),
            ContractError,
        >(ContractError::InvalidRuleDescriptor),
{
    lemma_verdict_from(rules, 0);
}

/// A one-entry rule list gets the verdict of its only descriptor: it
/// passes exactly when the descriptor is recognized.
pub proof fn law_single_rule_list_agrees(rule: Seq<u8>)
    ensures
        (rules_verdict(seq![rule]) is Ok) == is_rule_descriptor(rule),
        !is_rule_descriptor(rule) ==> rules_verdict(seq![rule]) == Err::<(), ContractError>(
            ContractError::InvalidRuleDescriptor,
        ),
{
    let s = seq![rule];
    assert(s.take(0) =~= Seq::<Seq<u8>>::empty());
    assert(rules_verdict_from(s, 1) is Ok);
}

/// What `rules_verdict_from(rules, i)` says, given that `rules[..i]`
/// passed.
proof fn lemma_verdict_from(rules: Seq<Seq<u8>>, i: int)
    requires
        0 <= i <= rules.len(),
    ensures
        (rules_verdict_from(rules, i) is Ok) <==> ((forall|j: int|
            i <= j < rules.len() ==> #[trigger] is_rule_descriptor(rules[j])) && (forall|j: int, k: int|
            0 <= k < j < rules.len() && i <= j ==> rules[k] != rules[j])),
        (forall|j: int, k: int| 0 <= k < j < rules.len() ==> rules[k] != rules[j]) && (exists|j: int|
            i <= j < rules.len() && !#[trigger] is_rule_descriptor(rules[j])) ==> rules_verdict_from(rules, i)
            == Err::<(), ContractError>(ContractError::InvalidRuleDescriptor),
    decreases rules.len() - i,
{
    if i < rules.len() {
        lemma_verdict_from(rules, i + 1);
        if rules.take(i).contains(rules[i]) {
            let k = choose|k: int| 0 <= k < i && rules.take(i)[k] == rules[i];
            assert(rules[k] == rules[i]);
        } else {
            assert forall|k: int| 0 <= k < i implies rules[k] != rules[i] by {
                assert(rules.take(i)[k] == rules[k]);
            }
        }
    }
}

} // verus!
