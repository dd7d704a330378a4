//! Settings of the service and the rules that mark special counts.

use vstd::prelude::*;
use vstd::string::StringExecFns;
use crate::digits::{digit_count, lemma_digit_count_unique, lemma_pow10_increases, pow10};

verus! {

/// What a single rule says about a count.
#[derive(Debug, PartialEq)]
pub enum TextSuffixResult {
    /// The count is below the rule's number: no later rule can apply either.
    Break,
    /// The count ends in the rule's number: this text is appended.
    Message(String),
    /// The count is large enough but does not end in the rule's number.
    Skip,
}

/// A rule that marks every count whose last decimal digits spell `value`.
#[derive(Debug, PartialEq)]
pub struct TextSuffix {
    value: u64,
    message: String,
    divisor: u128,
}

/// The modulus under which a count is compared with `value`: the smallest
/// power of ten above it.
pub open spec fn divisor_of(value: u64) -> nat {
    pow10(digit_count(value as nat))
}

/// Whether a count ends in the decimal digits of `value`.
pub open spec fn ends_in(count: u64, value: u64) -> bool {
    count >= value && (count as nat) % divisor_of(value) == value as nat
}

impl TextSuffix {
    #[verifier::type_invariant]
    spec fn well_formed(self) -> bool {
        self.value > 0 && self.divisor == divisor_of(self.value)
    }

    /// The number a count has to end in.
    pub closed spec fn spec_value(&self) -> u64 {
        self.value
    }

    /// The text appended to a matching count.
    pub closed spec fn spec_message(&self) -> Seq<char> {
        self.message@
    }

    /// The modulus the rule compares under.
    pub closed spec fn spec_divisor(&self) -> u128 {
        self.divisor
    }

    /// The view holds the number and the text of the rule.
    pub broadcast proof fn lemma_view(&self)
        ensures
            #[trigger] self@ == (RuleView {
                value: self.spec_value(),
                message: self.spec_message(),
            }),
    {
    }

    /// The rule that marks counts ending in `value` with `message`.
    pub fn new(value: u64, message: String) -> (rule: Self)
        requires
            value > 0,
        ensures
            rule@ == (RuleView { value, message: message@ }),
            rule.spec_value() == value,
            rule.spec_message() == message@,
            rule.spec_divisor() == divisor_of(value),
    {
        TextSuffix { value, message, divisor: TextSuffix::calculate_divisor(value) }
    }

    /// The number a count has to end in; it is never zero.
    #[verifier::when_used_as_spec(spec_value)]
    pub fn value(&self) -> (v: u64)
        ensures
            v == self.spec_value(),
            v > 0,
    {
        proof {
            use_type_invariant(self);
        }
        self.value
    }

    /// The text appended to a matching count.
    pub fn message(&self) -> (m: &String)
        ensures
            m@ == self.spec_message(),
    {
        &self.message
    }

    /// The modulus the rule compares under: the smallest power of ten above
    /// its number.
    #[verifier::when_used_as_spec(spec_divisor)]
    pub fn divisor(&self) -> (d: u128)
        ensures
            d == self.spec_divisor(),
            d == divisor_of(self.spec_value()),
    {
        proof {
            use_type_invariant(self);
        }
        self.divisor
    }

    /// Judges one count against this rule: a count below the rule's number
    /// ends the search, a count that ends in the number gets the rule's text,
    /// any other count is passed on.
    pub fn check_value(&self, value: u64) -> (verdict: TextSuffixResult)
        ensures
            match verdict {
                TextSuffixResult::Break => value < self.spec_value(),
                TextSuffixResult::Message(text) => ends_in(value, self.spec_value()) && text@
                    == self.spec_message(),
                TextSuffixResult::Skip => value >= self.spec_value() && !ends_in(
                    value,
                    self.spec_value(),
                ),
            },
    {
        proof {
            use_type_invariant(self);
            lemma_pow10_increases(0, digit_count(self.value as nat));
        }
        if value < self.value {
            return TextSuffixResult::Break;
        }
        if value as u128 % self.divisor == self.value as u128 {
            return TextSuffixResult::Message(self.message.clone());
        }
        TextSuffixResult::Skip
    }

    /// The smallest power of ten above `value`.
    pub fn calculate_divisor(value: u64) -> (divisor: u128)
        requires
            value > 0,
        ensures
            divisor == divisor_of(value),
            value < divisor <= 10 * value,
    {
        let mut divisor: u128 = 10;
        let ghost mut exponent: nat = 1;
        proof {
            reveal_with_fuel(pow10, 2);
        }
        while divisor <= value as u128
            invariant
                exponent > 0,
                divisor >= 10,
                divisor == pow10(exponent),
                pow10((exponent - 1) as nat) <= value,
                value > 0,
            decreases
                (if divisor <= value {
                    value + 1 - divisor
                } else {
                    0
                }),
        {
            divisor = divisor * 10;
            proof {
                exponent = exponent + 1;
            }
        }
        proof {
            lemma_digit_count_unique(value as nat, exponent);
            assert(pow10(exponent) == 10 * pow10((exponent - 1) as nat));
        }
        divisor
    }
}

/// The settings of the service.
#[derive(Debug, PartialEq)]
pub struct Options {
    /// The port on this host that notifications are sent to.
    pub osc_send_port: u16,
    /// An event whose address ends in this text counts as a boop.
    pub boop_address: String,
    /// The rules for special counts, in ascending order of their numbers.
    pub text_suffixes: Vec<TextSuffix>,
}

/// A rule as a settings file gives it.
pub struct SuffixEntry {
    /// The number a count has to end in.
    pub value: u64,
    /// The text appended to a matching count.
    pub message: String,
}

/// What a rule says, apart from the divisor that follows from it.
pub struct RuleView {
    /// The number a count has to end in.
    pub value: u64,
    /// The text appended to a matching count.
    pub message: Seq<char>,
}

impl View for TextSuffix {
    type V = RuleView;

    closed spec fn view(&self) -> RuleView {
        RuleView { value: self.value, message: self.message@ }
    }
}

impl View for SuffixEntry {
    type V = RuleView;

    open spec fn view(&self) -> RuleView {
        RuleView { value: self.value, message: self.message@ }
    }
}

/// The views of the rules in `rules`.
pub open spec fn rule_views(rules: Seq<TextSuffix>) -> Seq<RuleView> {
    rules.map_values(|r: TextSuffix| r@)
}

/// The views of the entries in `entries`.
pub open spec fn entry_views(entries: Seq<SuffixEntry>) -> Seq<RuleView> {
    entries.map_values(|e: SuffixEntry| e@)
}

/// Whether the rules stand in ascending order of their numbers.
pub open spec fn ascending(rules: Seq<RuleView>) -> bool {
    forall|i: int, j: int| 0 <= i < j < rules.len() ==> rules[i].value <= rules[j].value
}

/// `rules`, which are in ascending order, with `rule` put behind the last
/// rule whose number is not larger.
pub open spec fn placed(rules: Seq<RuleView>, rule: RuleView) -> Seq<RuleView>
    decreases rules.len(),
{
    if rules.len() == 0 {
        seq![rule]
    } else if rules.last().value <= rule.value {
        rules.push(rule)
    } else {
        placed(rules.drop_last(), rule).push(rules.last())
    }
}

/// The rules in ascending order of their numbers; rules with the same number
/// keep the order in which they came.
pub open spec fn sorted_by_value(rules: Seq<RuleView>) -> Seq<RuleView>
    decreases rules.len(),
{
    if rules.len() == 0 {
        Seq::empty()
    } else {
        placed(sorted_by_value(rules.drop_last()), rules.last())
    }
}

/// Placing a rule keeps the order and adds exactly that rule.
pub proof fn lemma_placed(rules: Seq<RuleView>, rule: RuleView)
    requires
        ascending(rules),
    ensures
        ascending(placed(rules, rule)),
        placed(rules, rule).to_multiset() == rules.to_multiset().insert(rule),
        placed(rules, rule).len() == rules.len() + 1,
    decreases rules.len(),
{
    broadcast use vstd::seq_lib::group_to_multiset_ensures;

    if rules.len() == 0 {
        assert(seq![rule] =~= Seq::<RuleView>::empty().push(rule));
    } else if rules.last().value <= rule.value {
    } else {
        let front = rules.drop_last();
        assert(ascending(front)) by {
            assert forall|i: int, j: int| 0 <= i < j < front.len() implies front[i].value
                <= front[j].value by {
                assert(front[i] == rules[i]);
                assert(front[j] == rules[j]);
            }
        }
        lemma_placed(front, rule);
        let inner = placed(front, rule);
        let out = inner.push(rules.last());
        assert(rules =~= front.push(rules.last()));
        assert(out.to_multiset() =~= rules.to_multiset().insert(rule));
        assert forall|i: int, j: int| 0 <= i < j < out.len() implies out[i].value
            <= out[j].value by {
            if j == out.len() - 1 {
                if inner[i] == rule {
                } else {
                    assert(inner.to_multiset().count(inner[i]) > 0);
                    assert(front.to_multiset().count(inner[i]) > 0);
                    assert(front.contains(inner[i]));
                    let k = choose|k: int| 0 <= k < front.len() && front[k] == inner[i];
                    assert(rules[k] == front[k]);
                }
            }
        }
    }
}

/// Sorting puts the rules in ascending order and neither drops nor adds one.
pub proof fn lemma_sorted_by_value(rules: Seq<RuleView>)
    ensures
        ascending(sorted_by_value(rules)),
        sorted_by_value(rules).to_multiset() == rules.to_multiset(),
        sorted_by_value(rules).len() == rules.len(),
    decreases rules.len(),
{
    broadcast use vstd::seq_lib::group_to_multiset_ensures;

    if rules.len() == 0 {
    } else {
        lemma_sorted_by_value(rules.drop_last());
        lemma_placed(sorted_by_value(rules.drop_last()), rules.last());
        assert(rules =~= rules.drop_last().push(rules.last()));
    }
}

/// The port that notifications go to unless the settings name another.
pub fn default_osc_send_port() -> (port: u16)
    ensures
        port == 9000,
{
    9000
}

/// The ending that marks a boop unless the settings name another.
pub fn default_boop_address() -> (address: String)
    ensures
        address@ == "/OSCBoop"@,
{
    String::from_str("/OSCBoop")
}

/// The rules that the defaults are made of, as number and text.
pub open spec fn default_rules() -> Seq<RuleView> {
    seq![
        RuleView { value: 69, message: "Nice"@ },
        RuleView { value: 420, message: "Blaze it"@ },
        RuleView { value: 621, message: "owo"@ },
        RuleView { value: 666, message: "ooOooO scary"@ },
        RuleView { value: 1337, message: "much leet so wow"@ },
    ]
}

/// The rules that apply unless the settings name others.
pub fn default_text_suffixes() -> (rules: Vec<TextSuffix>)
    ensures
        rule_views(rules@) == default_rules(),
        ascending(rule_views(rules@)),
{
    let mut rules: Vec<TextSuffix> = Vec::new();
    rules.push(TextSuffix::new(69, String::from_str("Nice")));
    rules.push(TextSuffix::new(420, String::from_str("Blaze it")));
    rules.push(TextSuffix::new(621, String::from_str("owo")));
    rules.push(TextSuffix::new(666, String::from_str("ooOooO scary")));
    rules.push(TextSuffix::new(1337, String::from_str("much leet so wow")));
    assert(rule_views(rules@) =~= default_rules());
    rules
}

/// Puts `rule` into `rules` behind the last rule whose number is not larger.
fn place(rules: &mut Vec<TextSuffix>, rule: TextSuffix)
    ensures
        rule_views(final(rules)@) == placed(rule_views(old(rules)@), rule@),
{
    let ghost all: Seq<RuleView> = rule_views(rules@);
    let mut at: usize = rules.len();
    proof {
        assert(all.take(at as int) =~= all);
    }
    while at > 0 && rules[at - 1].value() > rule.value()
        invariant
            at <= rules@.len(),
            rules@ == old(rules)@,
            all == rule_views(rules@),
            placed(all, rule@) == placed(all.take(at as int), rule@) + all.skip(at as int),
        decreases at,
    {
        proof {
            let upto = all.take(at as int);
            assert(upto.last() == rules@[at - 1]@);
            assert(upto.drop_last() =~= all.take(at - 1));
            assert(placed(upto.drop_last(), rule@).push(upto.last()) + all.skip(at as int)
                =~= placed(all.take(at - 1), rule@) + all.skip(at - 1));
        }
        at -= 1;
    }
    proof {
        let upto = all.take(at as int);
        if at > 0 {
            assert(upto.last() == rules@[at - 1]@);
        }
        assert(placed(upto, rule@) == upto.push(rule@));
    }
    rules.insert(at, rule);
    proof {
        assert(rule_views(rules@) =~= all.take(at as int).push(rule@) + all.skip(at as int));
    }
}

/// Makes rules of the entries of a settings file and puts them in ascending
/// order of their numbers.
pub fn sort_text_suffixes(entries: Vec<SuffixEntry>) -> (rules: Vec<TextSuffix>)
    requires
        forall|i: int| 0 <= i < entries@.len() ==> (#[trigger] entries@[i]).value > 0,
    ensures
        rule_views(rules@) == sorted_by_value(entry_views(entries@)),
        ascending(rule_views(rules@)),
{
    let ghost all: Seq<RuleView> = entry_views(entries@);
    let mut entries = entries;
    let mut rules: Vec<TextSuffix> = Vec::new();
    let ghost mut done: int = 0;
    proof {
        assert(all.take(0) =~= Seq::<RuleView>::empty());
        assert(rule_views(rules@) =~= Seq::<RuleView>::empty());
        assert(all.skip(0) =~= all);
    }
    while entries.len() > 0
        invariant
            0 <= done <= all.len(),
            entry_views(entries@) == all.skip(done),
            forall|i: int| 0 <= i < entries@.len() ==> (#[trigger] entries@[i]).value > 0,
            rule_views(rules@) == sorted_by_value(all.take(done)),
        decreases entries@.len(),
    {
        let ghost before = entries@;
        let entry: SuffixEntry = entries.remove(0);
        proof {
            assert(entry == before[0]);
            assert(entry_views(before).len() == before.len());
            assert(done < all.len());
            assert(entry@ == entry_views(before)[0]);
            assert(entries@ =~= before.remove(0));
            assert forall|i: int| 0 <= i < entries@.len() implies entry_views(entries@)[i]
                == all.skip(done + 1)[i] by {
                assert(entries@[i] == before[i + 1]);
                assert(entry_views(before)[i + 1] == all.skip(done)[i + 1]);
            }
            assert(entry_views(entries@) =~= all.skip(done + 1));
            let upto = all.take(done + 1);
            assert(upto.drop_last() =~= all.take(done));
            assert(upto.last() == entry@);
            assert forall|i: int| 0 <= i < entries@.len() implies (#[trigger] entries@[i]).value
                > 0 by {
                assert(entries@[i] == before[i + 1]);
            }
        }
        let rule: TextSuffix = TextSuffix::new(entry.value, entry.message);
        place(&mut rules, rule);
        proof {
            done = done + 1;
        }
    }
    proof {
        assert(all.take(done) =~= all);
        lemma_sorted_by_value(all);
    }
    rules
}

impl Options {
    /// The settings that apply: those `loaded`, with the port and the ending
    /// replaced where the command line names them.
    pub fn new(loaded: Options, send: Option<u16>, boop_address: Option<String>) -> (options: Self)
        ensures
            options.osc_send_port == (match send {
                Some(port) => port,
                None => loaded.osc_send_port,
            }),
            options.boop_address@ == (match boop_address {
                Some(address) => address@,
                None => loaded.boop_address@,
            }),
            options.text_suffixes == loaded.text_suffixes,
    {
        let mut options = loaded;
        if let Some(port) = send {
            options.osc_send_port = port;
        }
        if let Some(address) = boop_address {
            options.boop_address = address;
        }
        options
    }

    /// The settings that a file gives: each part that the file leaves out
    /// takes its default, and the rules are put in ascending order.
    pub fn from_parts(
        osc_send_port: Option<u16>,
        boop_address: Option<String>,
        text_suffixes: Option<Vec<SuffixEntry>>,
    ) -> (options: Self)
        requires
            text_suffixes matches Some(entries) ==> forall|i: int|
                0 <= i < entries@.len() ==> (#[trigger] entries@[i]).value > 0,
        ensures
            options.osc_send_port == (match osc_send_port {
                Some(port) => port,
                None => 9000,
            }),
            options.boop_address@ == (match boop_address {
                Some(address) => address@,
                None => "/OSCBoop"@,
            }),
            rule_views(options.text_suffixes@) == (match text_suffixes {
                Some(entries) => sorted_by_value(entry_views(entries@)),
                None => default_rules(),
            }),
            ascending(rule_views(options.text_suffixes@)),
    {
        Options {
            osc_send_port: match osc_send_port {
                Some(port) => port,
                None => default_osc_send_port(),
            },
            boop_address: match boop_address {
                Some(address) => address,
                None => default_boop_address(),
            },
            text_suffixes: match text_suffixes {
                Some(entries) => sort_text_suffixes(entries),
                None => default_text_suffixes(),
            },
        }
    }
}

impl Default for Options {
    fn default() -> (options: Self)
        ensures
            options.osc_send_port == 9000,
            options.boop_address@ == "/OSCBoop"@,
            rule_views(options.text_suffixes@) == default_rules(),
            ascending(rule_views(options.text_suffixes@)),
    {
        Options {
            osc_send_port: 9000,
            boop_address: default_boop_address(),
            text_suffixes: default_text_suffixes(),
        }
    }
}

} // verus!
