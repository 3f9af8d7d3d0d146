//! Flattening dial plans into the rows of the tabular export.

use vstd::prelude::*;
use crate::dialplans::{DialPlan, DialPlanConfig, ExportRow, Profile};

verus! {

/// A row as plain text: device ip, device name, profile, plan, port, destination
/// number, user.
pub type RowView = (Seq<char>, Seq<char>, Seq<char>, Seq<char>, Seq<char>, Option<Seq<char>>, Seq<char>);

impl View for ExportRow {
    type V = RowView;

    open spec fn view(&self) -> RowView {
        (
            self.vega_ip@,
            self.vega_name@,
            self.profile@,
            self.plan@,
            self.port@,
            match self.destination_ext {
                Some(d) => Some(d@),
                None => None,
            },
            self.user_lineport@,
        )
    }
}

/// A plan goes into the export when its source, telephone number and subscriber are
/// all known.
pub open spec fn eligible(p: DialPlan) -> bool {
    p.srce is Some && p.dest_tel is Some && p.subscriber is Some
}

pub open spec fn text_or_empty(o: Option<String>) -> Seq<char> {
    match o {
        Some(s) => s@,
        None => Seq::empty(),
    }
}

/// The row of an eligible plan.
pub open spec fn row_of(ip: Seq<char>, host: Seq<char>, pid: Seq<char>, qid: Seq<char>, p: DialPlan) -> RowView {
    (ip, host, pid, qid, p.srce->0@, Some(p.dest_tel->0@), p.subscriber->0@)
}

/// The rows of the eligible plans among `plans`, in order.
pub open spec fn plan_rows(ip: Seq<char>, host: Seq<char>, pid: Seq<char>, plans: Seq<(String, DialPlan)>) -> Seq<RowView>
    decreases plans.len(),
{
    if plans.len() == 0 {
        Seq::empty()
    } else {
        let prev = plan_rows(ip, host, pid, plans.drop_last());
        let last = plans.last();
        if eligible(last.1) {
            prev.push(row_of(ip, host, pid, last.0@, last.1))
        } else {
            prev
        }
    }
}

/// The rows of the eligible plans of the profiles `ps`, in order.
pub open spec fn profile_rows(ip: Seq<char>, host: Seq<char>, ps: Seq<(String, Profile)>) -> Seq<RowView>
    decreases ps.len(),
{
    if ps.len() == 0 {
        Seq::empty()
    } else {
        profile_rows(ip, host, ps.drop_last()) + plan_rows(ip, host, ps.last().0@, ps.last().1.plans@)
    }
}

/// The rows of the eligible plans of the devices `cs`, in order.
pub open spec fn config_rows(cs: Seq<DialPlanConfig>) -> Seq<RowView>
    decreases cs.len(),
{
    if cs.len() == 0 {
        Seq::empty()
    } else {
        let c = cs.last();
        config_rows(cs.drop_last()) + profile_rows(
            text_or_empty(c.ip_address),
            text_or_empty(c.hostname),
            c.profiles@,
        )
    }
}

fn text_of(o: &Option<String>) -> (r: String)
    ensures
        r@ == text_or_empty(*o),
{
    match o {
        Some(s) => s.clone(),
        None => String::new(),
    }
}

/// One row for each plan whose source, telephone number and subscriber are all known,
/// device by device, profile by profile, plan by plan.
pub fn dial_plan_rows(dial_plans: &Vec<DialPlanConfig>) -> (r: Vec<ExportRow>)
    ensures
        r@.map_values(|row: ExportRow| row@) == config_rows(dial_plans@),
{
    let mut rows: Vec<ExportRow> = Vec::new();
    let mut c: usize = 0;
    while c < dial_plans.len()
        invariant
            c <= dial_plans.len(),
            rows@.map_values(|row: ExportRow| row@) == config_rows(dial_plans@.subrange(0, c as int)),
        decreases dial_plans.len() - c,
    {
        let cfg = &dial_plans[c];
        let ip = text_of(&cfg.ip_address);
        let host = text_of(&cfg.hostname);
        let ghost base = rows@.map_values(|row: ExportRow| row@);
        let mut i: usize = 0;
        while i < cfg.profiles.len()
            invariant
                i <= cfg.profiles.len(),
                rows@.map_values(|row: ExportRow| row@) == base + profile_rows(
                    ip@,
                    host@,
                    cfg.profiles@.subrange(0, i as int),
                ),
            decreases cfg.profiles.len() - i,
        {
            let pid = &cfg.profiles[i].0;
            let plans = &cfg.profiles[i].1.plans;
            let ghost base2 = rows@.map_values(|row: ExportRow| row@);
            let mut j: usize = 0;
            while j < plans.len()
                invariant
                    j <= plans.len(),
                    rows@.map_values(|row: ExportRow| row@) == base2 + plan_rows(
                        ip@,
                        host@,
                        pid@,
                        plans@.subrange(0, j as int),
                    ),
                decreases plans.len() - j,
            {
                let plan = &plans[j].1;
                let ghost before = rows@;
                assert(plans@.subrange(0, j + 1).drop_last() =~= plans@.subrange(0, j as int));
                match (&plan.srce, &plan.dest_tel, &plan.subscriber) {
                    (Some(srce), Some(tel), Some(sub)) => {
                        let row = ExportRow {
                            vega_ip: ip.clone(),
                            vega_name: host.clone(),
                            profile: pid.clone(),
                            plan: plans[j].0.clone(),
                            port: srce.clone(),
                            destination_ext: Some(tel.clone()),
                            user_lineport: sub.clone(),
                        };
                        rows.push(row);
                        assert(rows@.map_values(|row: ExportRow| row@) =~= before.map_values(
                            |row: ExportRow| row@,
                        ).push(row_of(ip@, host@, pid@, plans@[j as int].0@, *plan)));
                    },
                    _ => {},
                }
                j = j + 1;
            }
            assert(cfg.profiles@.subrange(0, i + 1).drop_last() =~= cfg.profiles@.subrange(0, i as int));
            assert(plans@.subrange(0, j as int) =~= plans@);
            i = i + 1;
        }
        assert(dial_plans@.subrange(0, c + 1).drop_last() =~= dial_plans@.subrange(0, c as int));
        assert(cfg.profiles@.subrange(0, i as int) =~= cfg.profiles@);
        c = c + 1;
    }
    assert(dial_plans@.subrange(0, c as int) =~= dial_plans@);
    rows
}

/// A plan that lacks a source, a telephone number or a subscriber adds no row.
pub proof fn ineligible_plan_adds_no_row(
    ip: Seq<char>,
    host: Seq<char>,
    pid: Seq<char>,
    plans: Seq<(String, DialPlan)>,
    entry: (String, DialPlan),
)
    requires
        !eligible(entry.1),
    ensures
        plan_rows(ip, host, pid, plans.push(entry)) == plan_rows(ip, host, pid, plans),
{
    assert(plans.push(entry).drop_last() =~= plans);
}

} // verus!
