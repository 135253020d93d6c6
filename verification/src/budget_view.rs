//! The budget overview as the user interface shows it: one node per budgeted
//! account, nested as the accounts are, and a summary header.

use vstd::prelude::*;
use vstd::string::*;

use crate::decimal::{checked_sub, decimal_difference, Dec};
use crate::ipc::{period_label, period_text, IpcAmount};
use crate::loan::Period;
use crate::model::{decimal_text, u64_text, AccountId, Amount, CommodityCode};
use crate::text::str_equal_text;

verus! {

/// Identifies one budget.
#[derive(Debug, Clone, Copy, PartialEq, Eq, Hash, Structural)]
pub struct BudgetId(pub u64);

/// What a budget does with its remainder when a period ends.
#[derive(Debug, Clone, Copy, PartialEq, Eq, Structural)]
pub enum RolloverPolicy {
    /// The next period starts from zero.
    ResetToZero,
    /// The remainder carries into the next period.
    CarryOver,
}

/// The revision of a budget that governs the period shown.
#[derive(Debug, Clone, PartialEq, Eq)]
pub struct BudgetRevision {
    /// How long the budget's own period is.
    pub period: Period,
    /// The budget's name, if it has one.
    pub name: Option<String>,
    /// What happens to the remainder at a period's end.
    pub rollover: RolloverPolicy,
    /// The tag filter the budget counts postings through, as text.
    pub tag_filter: Option<String>,
    /// Whether the budget only tracks spending, with no target.
    pub tracking_only: bool,
}

/// One budgeted account of the overview, with its sub-accounts.
#[derive(Debug)]
pub struct BudgetTreeItem {
    /// The budget.
    pub budget_id: BudgetId,
    /// The account it covers.
    pub account_id: AccountId,
    /// That account's name.
    pub account_name: String,
    /// How deep the account sits in the tree.
    pub depth: u32,
    /// The commodity the budget's target is in, if it has one.
    pub commodity: Option<CommodityCode>,
    /// What was spent in the period, one amount per commodity.
    pub actuals: Vec<Amount>,
    /// The target for the period shown, if there is one.
    pub effective_target: Option<Dec>,
    /// The revision governing the period, if any.
    pub governing: Option<BudgetRevision>,
    /// Whether revisions with different periods overlap the period shown.
    pub has_mixed_period: bool,
    /// The budgeted sub-accounts.
    pub children: Vec<BudgetTreeItem>,
}

/// One node of the overview as the interface shows it.
#[derive(Debug)]
pub struct BudgetTreeNode {
    /// The budget's id, as text.
    pub id: String,
    /// The account's id, as text.
    pub account_id: String,
    /// The account's name.
    pub account_name: String,
    /// How deep the account sits.
    pub depth: u32,
    /// The budget's name.
    pub name: Option<String>,
    /// The target, in the budget's commodity.
    pub effective_target: Option<IpcAmount>,
    /// What was spent.
    pub spent: IpcAmount,
    /// The label of the budget's own period.
    pub native_period_label: String,
    /// Whether periods are mixed.
    pub has_mixed_period: bool,
    /// The rollover policy.
    pub rollover: RolloverPolicy,
    /// The tag filter, as text.
    pub tag_filter: Option<String>,
    /// Whether the budget only tracks.
    pub is_tracking_only: bool,
    /// The sub-accounts' nodes.
    pub children: Vec<BudgetTreeNode>,
}

/// Whether `a` shows `value` in `code`.
pub open spec fn shows(a: IpcAmount, value: Dec, code: Seq<char>) -> bool {
    a.value == value && a.currency_code@ == code
}

/// The text of an optional commodity: its code, or nothing.
pub open spec fn code_or_blank(c: Option<CommodityCode>) -> Seq<char> {
    match c {
        Some(code) => code@,
        None => Seq::empty(),
    }
}

/// Whether `node` shows `item`'s own fields: what was spent is the first
/// actual, or zero in the budget's commodity; the target shows only with a
/// commodity to show it in; an ungoverned budget reads as a tracking-only,
/// resetting budget over a `period`.
pub open spec fn shows_item(item: BudgetTreeItem, node: BudgetTreeNode) -> bool {
    &&& node.id@ == decimal_text(item.budget_id.0 as nat)
    &&& node.account_id@ == decimal_text(item.account_id.0 as nat)
    &&& node.account_name@ == item.account_name@
    &&& node.depth == item.depth
    &&& node.has_mixed_period == item.has_mixed_period
    &&& (if item.actuals@.len() > 0 {
        shows(node.spent, item.actuals@[0].value, item.actuals@[0].commodity@)
    } else {
        shows(node.spent, Dec { mantissa: 0, scale: 0 }, code_or_blank(item.commodity))
    })
    &&& match (item.effective_target, item.commodity) {
        (Some(t), Some(c)) => node.effective_target matches Some(a) && shows(a, t, c@),
        _ => node.effective_target is None,
    }
    &&& match item.governing {
        Some(g) => {
            &&& node.native_period_label@ == period_text(g.period)
            &&& node.rollover == g.rollover
            &&& node.is_tracking_only == g.tracking_only
            &&& (match g.name {
                Some(n) => node.name matches Some(m) && m@ == n@,
                None => node.name is None,
            })
            &&& match g.tag_filter {
                Some(f) => node.tag_filter matches Some(m) && m@ == f@,
                None => node.tag_filter is None,
            }
        },
        None => {
            &&& node.native_period_label@ == "period"@
            &&& node.rollover == RolloverPolicy::ResetToZero
            &&& node.is_tracking_only
            &&& node.name is None
            &&& node.tag_filter is None
        },
    }
}

/// Whether `node` shows `item` and, child by child, its whole subtree.
pub open spec fn shows_tree(item: BudgetTreeItem, node: BudgetTreeNode) -> bool
    decreases item, 1nat,
{
    shows_item(item, node) && shows_forest(item.children@, node.children@)
}

/// Whether `nodes` show `items`, one by one.
pub open spec fn shows_forest(items: Seq<BudgetTreeItem>, nodes: Seq<BudgetTreeNode>) -> bool
    decreases items, 0nat,
{
    if items.len() == 0 {
        nodes.len() == 0
    } else {
        &&& nodes.len() > 0
        &&& shows_tree(items[0], nodes[0])
        &&& shows_forest(items.subrange(1, items.len() as int), nodes.subrange(1, nodes.len() as int))
    }
}

/// Nodes show items one by one exactly when each node shows the item at its
/// position.
proof fn lemma_forest_pointwise(items: Seq<BudgetTreeItem>, nodes: Seq<BudgetTreeNode>)
    requires
        items.len() == nodes.len(),
        forall|i: int| 0 <= i < items.len() ==> #[trigger] shows_tree(items[i], nodes[i]),
    ensures
        shows_forest(items, nodes),
    decreases items.len(),
{
    if items.len() > 0 {
        let rest = items.subrange(1, items.len() as int);
        let rest_nodes = nodes.subrange(1, nodes.len() as int);
        assert forall|i: int| 0 <= i < rest.len() implies #[trigger] shows_tree(rest[i], rest_nodes[i]) by {
            assert(shows_tree(items[i + 1], nodes[i + 1]));
        }
        lemma_forest_pointwise(rest, rest_nodes);
        assert(shows_tree(items[0], nodes[0]));
    }
}

/// Copies optional text.
fn clone_text(t: &Option<String>) -> (r: Option<String>)
    ensures
        match *t {
            Some(s) => r matches Some(c) && c@ == s@,
            None => r is None,
        },
{
    match t {
        Some(s) => Some(s.clone()),
        None => None,
    }
}

/// Builds one node of the overview from a budgeted account, its
/// sub-accounts' nodes included.
pub fn budget_tree_node(item: &BudgetTreeItem) -> (r: BudgetTreeNode)
    ensures
        shows_tree(*item, r),
    decreases item,
{
    let spent = if item.actuals.len() > 0 {
        IpcAmount { value: item.actuals[0].value, currency_code: item.actuals[0].commodity.0.clone() }
    } else {
        let code = match &item.commodity {
            Some(c) => c.0.clone(),
            None => String::new(),
        };
        IpcAmount { value: Dec::zero(), currency_code: code }
    };
    let effective_target = match (&item.effective_target, &item.commodity) {
        (Some(t), Some(c)) => Some(IpcAmount { value: *t, currency_code: c.0.clone() }),
        _ => None,
    };
    let (native_period_label, name, rollover, tag_filter, is_tracking_only) = match &item.governing {
        Some(g) => (period_label(&g.period), clone_text(&g.name), g.rollover, clone_text(&g.tag_filter), g.tracking_only),
        None => (String::from_str("period"), None, RolloverPolicy::ResetToZero, None, true),
    };
    let mut children: Vec<BudgetTreeNode> = Vec::new();
    let mut i: usize = 0;
    while i < item.children.len()
        invariant
            i <= item.children@.len(),
            children@.len() == i,
            forall|j: int| 0 <= j < i ==> #[trigger] shows_tree(item.children@[j], children@[j]),
        decreases item.children@.len() - i,
    {
        let child = budget_tree_node(&item.children[i]);
        children.push(child);
        i = i + 1;
    }
    let node = BudgetTreeNode {
        id: u64_text(item.budget_id.0),
        account_id: u64_text(item.account_id.0),
        account_name: item.account_name.clone(),
        depth: item.depth,
        name,
        effective_target,
        spent,
        native_period_label,
        has_mixed_period: item.has_mixed_period,
        rollover,
        tag_filter,
        is_tracking_only,
        children,
    };
    proof {
        lemma_forest_pointwise(item.children@, node.children@);
    }
    node
}

/// The totals over the whole overview.
#[derive(Debug, Clone, PartialEq, Eq)]
pub struct BudgetTreeSummary {
    /// The targets together, in `commodity`.
    pub total_effective_target: Dec,
    /// What was spent, one amount per commodity.
    pub total_actuals: Vec<Amount>,
    /// The dominant target commodity, if there is one.
    pub commodity: Option<CommodityCode>,
    /// How many budgets are overspent.
    pub overspent_count: u64,
}

/// The summary header as the interface shows it.
#[derive(Debug, Clone, PartialEq, Eq)]
pub struct BudgetSummary {
    /// What was budgeted.
    pub total_budgeted: Option<IpcAmount>,
    /// What was spent.
    pub total_spent: Option<IpcAmount>,
    /// What remains.
    pub total_remaining: Option<IpcAmount>,
    /// Whether spending spans more than one commodity.
    pub has_mixed_commodities: bool,
    /// How many budgets are overspent.
    pub overspent_count: u64,
}

/// The first amount of `actuals` in commodity `code`.
pub open spec fn first_in(actuals: Seq<Amount>, code: Seq<char>) -> Option<Dec>
    decreases actuals.len(),
{
    if actuals.len() == 0 {
        None
    } else if actuals[0].commodity@ == code {
        Some(actuals[0].value)
    } else {
        first_in(actuals.drop_first(), code)
    }
}

/// What was spent in `code`: the first amount in it, or zero.
pub open spec fn spent_in(actuals: Seq<Amount>, code: Seq<char>) -> Dec {
    match first_in(actuals, code) {
        Some(v) => v,
        None => Dec { mantissa: 0, scale: 0 },
    }
}

/// What remains of `target` after `spent`: their difference, or zero where
/// the difference leaves the range of a decimal.
pub open spec fn remaining_of(target: Dec, spent: Dec) -> Dec {
    match decimal_difference(target.mantissa, target.scale, spent.mantissa, spent.scale) {
        Some((m, s)) => Dec { mantissa: m, scale: s },
        None => Dec { mantissa: 0, scale: 0 },
    }
}

/// Finds what was spent in `code`.
fn find_spent(actuals: &Vec<Amount>, code: &str) -> (r: Dec)
    requires
        forall|j: int| 0 <= j < actuals@.len() ==> (#[trigger] actuals@[j]).wf(),
    ensures
        r == spent_in(actuals@, code@),
        r.wf(),
{
    let mut i: usize = 0;
    proof {
        assert(actuals@.skip(0) =~= actuals@);
    }
    while i < actuals.len()
        invariant
            i <= actuals@.len(),
            first_in(actuals@, code@) == first_in(actuals@.skip(i as int), code@),
            forall|j: int| 0 <= j < actuals@.len() ==> (#[trigger] actuals@[j]).wf(),
        decreases actuals@.len() - i,
    {
        proof {
            assert(actuals@.skip(i as int)[0] == actuals@[i as int]);
            assert(actuals@.skip(i as int).drop_first() =~= actuals@.skip(i + 1));
        }
        if str_equal_text(actuals[i].commodity.0.as_str(), code) {
            return actuals[i].value;
        }
        i = i + 1;
    }
    Dec::zero()
}

/// Builds the summary header: with a dominant target commodity every total
/// is in it; without one only a single-commodity spend is reported.
pub fn budget_summary(summary: &BudgetTreeSummary) -> (r: BudgetSummary)
    requires
        summary.total_effective_target.wf(),
        forall|j: int| 0 <= j < summary.total_actuals@.len() ==> (#[trigger] summary.total_actuals@[j]).wf(),
    ensures
        r.has_mixed_commodities == (summary.total_actuals@.len() > 1),
        r.overspent_count == summary.overspent_count,
        match summary.commodity {
            Some(tc) => {
                let spent = spent_in(summary.total_actuals@, tc@);
                &&& r.total_budgeted matches Some(b) && shows(b, summary.total_effective_target, tc@)
                &&& r.total_spent matches Some(s) && shows(s, spent, tc@)
                &&& r.total_remaining matches Some(m) && shows(
                    m,
                    remaining_of(summary.total_effective_target, spent),
                    tc@,
                )
            },
            None => {
                &&& r.total_budgeted is None
                &&& r.total_remaining is None
                &&& if summary.total_actuals@.len() == 1 {
                    r.total_spent matches Some(s) && shows(
                        s,
                        summary.total_actuals@[0].value,
                        summary.total_actuals@[0].commodity@,
                    )
                } else {
                    r.total_spent is None
                }
            },
        },
{
    let (total_budgeted, total_spent, total_remaining) = match &summary.commodity {
        Some(tc) => {
            let spent = find_spent(&summary.total_actuals, tc.0.as_str());
            let remaining = match checked_sub(&summary.total_effective_target, &spent) {
                Some(d) => d,
                None => Dec::zero(),
            };
            (
                Some(IpcAmount { value: summary.total_effective_target, currency_code: tc.0.clone() }),
                Some(IpcAmount { value: spent, currency_code: tc.0.clone() }),
                Some(IpcAmount { value: remaining, currency_code: tc.0.clone() }),
            )
        },
        None => {
            let spent = if summary.total_actuals.len() == 1 {
                Some(
                    IpcAmount {
                        value: summary.total_actuals[0].value,
                        currency_code: summary.total_actuals[0].commodity.0.clone(),
                    },
                )
            } else {
                None
            };
            (None, spent, None)
        },
    };
    BudgetSummary {
        total_budgeted,
        total_spent,
        total_remaining,
        has_mixed_commodities: summary.total_actuals.len() > 1,
        overspent_count: summary.overspent_count,
    }
}

} // verus!
