//! Which operator cost questions can be answered, the error texts when
//! they cannot, and the ranking texts.
use vstd::prelude::*;
use crate::text::{decimal, decimal_string, push_str, to_owned};

verus! {

/// What the checks need to know of an operator.
#[derive(Clone, Copy, Debug)]
pub struct OperatorShape {
    pub stars: u32,
    pub skill_count: usize,
    pub phase_count: usize,
    pub module_count: usize,
    pub is_patch: bool,
}

/// `【{name}】` framed as the texts write an operator.
pub open spec fn quoted(name: Seq<char>) -> Seq<char> {
    "オペレーター【"@ + name + "】"@
}

/// The answer to a mastery-cost question: the index of the skill, or why
/// there is none.
pub open spec fn skill_master_spec(name: Seq<char>, op: Option<OperatorShape>, skill_num: u32) -> Result<
    int,
    Seq<char>,
> {
    match op {
        None => Err(quoted(name) + "は存在しません"@),
        Some(o) => if o.skill_count == 0 {
            Err(quoted(name) + "はスキルが存在しません"@)
        } else if skill_num == 0 || skill_num > o.skill_count {
            Err(quoted(name) + "のスキル"@ + decimal(skill_num as nat) + "は存在しません"@)
        } else if o.stars <= 3 {
            Err(quoted(name) + "はスキルの特化は存在しません"@)
        } else {
            Ok(skill_num - 1)
        },
    }
}

/// The answer to a promotion-cost question.
pub open spec fn elite_spec(name: Seq<char>, op: Option<OperatorShape>) -> Result<(), Seq<char>> {
    match op {
        None => Err(quoted(name) + "は存在しません"@),
        Some(o) => if o.phase_count == 0 {
            Err(quoted(name) + "の昇進は存在しません"@)
        } else {
            Ok(())
        },
    }
}

/// The answer to a module-cost question.
pub open spec fn module_spec(name: Seq<char>, op: Option<OperatorShape>) -> Result<(), Seq<char>> {
    match op {
        None => Err(quoted(name) + "は存在しません"@),
        Some(o) => if o.module_count == 0 {
            Err(quoted(name) + "のモジュールは存在しません"@)
        } else {
            Ok(())
        },
    }
}

/// `オペレーター【{name}】` as a string.
fn quoted_exec(name: &str) -> (r: String)
    ensures
        r@ == quoted(name@),
{
    let mut s = to_owned("オペレーター【");
    push_str(&mut s, name);
    push_str(&mut s, "】");
    s
}

/// Checks a mastery-cost question (see `skill_master_spec`): the index of
/// the skill numbered `skill_num` (from 1), or the error text.
pub fn check_skill_master(operator_name: &str, op: Option<OperatorShape>, skill_num: u32) -> (r:
    Result<usize, String>)
    ensures
        match skill_master_spec(operator_name@, op, skill_num) {
            Ok(i) => r == Ok::<usize, String>(i as usize),
            Err(m) => r matches Err(x) && x@ == m,
        },
{
    match op {
        None => {
            let mut s = quoted_exec(operator_name);
            push_str(&mut s, "は存在しません");
            Err(s)
        },
        Some(o) => {
            if o.skill_count == 0 {
                let mut s = quoted_exec(operator_name);
                push_str(&mut s, "はスキルが存在しません");
                Err(s)
            } else if skill_num == 0 || skill_num as usize > o.skill_count {
                let mut s = quoted_exec(operator_name);
                push_str(&mut s, "のスキル");
                let d = decimal_string(skill_num as u64);
                push_str(&mut s, d.as_str());
                push_str(&mut s, "は存在しません");
                Err(s)
            } else if o.stars <= 3 {
                let mut s = quoted_exec(operator_name);
                push_str(&mut s, "はスキルの特化は存在しません");
                Err(s)
            } else {
                Ok((skill_num - 1) as usize)
            }
        },
    }
}

/// Checks a promotion-cost question (see `elite_spec`).
pub fn check_elite(operator_name: &str, op: Option<OperatorShape>) -> (r: Result<(), String>)
    ensures
        match elite_spec(operator_name@, op) {
            Ok(()) => r is Ok,
            Err(m) => r matches Err(x) && x@ == m,
        },
{
    match op {
        None => {
            let mut s = quoted_exec(operator_name);
            push_str(&mut s, "は存在しません");
            Err(s)
        },
        Some(o) => if o.phase_count == 0 {
            let mut s = quoted_exec(operator_name);
            push_str(&mut s, "の昇進は存在しません");
            Err(s)
        } else {
            Ok(())
        },
    }
}

/// Checks a module-cost question (see `module_spec`).
pub fn check_module(operator_name: &str, op: Option<OperatorShape>) -> (r: Result<(), String>)
    ensures
        match module_spec(operator_name@, op) {
            Ok(()) => r is Ok,
            Err(m) => r matches Err(x) && x@ == m,
        },
{
    match op {
        None => {
            let mut s = quoted_exec(operator_name);
            push_str(&mut s, "は存在しません");
            Err(s)
        },
        Some(o) => if o.module_count == 0 {
            let mut s = quoted_exec(operator_name);
            push_str(&mut s, "のモジュールは存在しません");
            Err(s)
        } else {
            Ok(())
        },
    }
}

/// Whether a promotion-cost answer carries a ranking: for 5- and 6-star
/// operators that are not promoted variants.
pub fn elite_ranking_applies(op: OperatorShape) -> (r: bool)
    ensures
        r == (!op.is_patch && (op.stars == 5 || op.stars == 6)),
{
    !op.is_patch && (op.stars == 5 || op.stars == 6)
}

/// `星{stars}{what}{total}{unit}中、第{rank}位の消費です`.
pub open spec fn ranking_text_spec(stars: u32, what: Seq<char>, total: nat, unit: Seq<char>, rank: nat) -> Seq<char> {
    "星"@ + decimal(stars as nat) + what + decimal(total) + unit + "中、第"@ + decimal(rank) + "位の消費です"@
}

/// The ranking text of a skill at position `idx` (from 0) of `total`.
pub fn skill_ranking_text(stars: u32, total: usize, idx: usize) -> (r: String)
    requires
        idx < total,
    ensures
        r@ == ranking_text_spec(stars, "スキル"@, total as nat, "個"@, (idx + 1) as nat),
{
    let mut s = to_owned("星");
    let a = decimal_string(stars as u64);
    push_str(&mut s, a.as_str());
    push_str(&mut s, "スキル");
    let b = decimal_string(total as u64);
    push_str(&mut s, b.as_str());
    push_str(&mut s, "個");
    push_str(&mut s, "中、第");
    let c = decimal_string(idx as u64 + 1);
    push_str(&mut s, c.as_str());
    push_str(&mut s, "位の消費です");
    s
}

/// The ranking text of an operator at position `idx` (from 0) of `total`.
pub fn elite_ranking_text(stars: u32, total: usize, idx: usize) -> (r: String)
    requires
        idx < total,
    ensures
        r@ == ranking_text_spec(stars, "オペレーター"@, total as nat, "名"@, (idx + 1) as nat),
{
    let mut s = to_owned("星");
    let a = decimal_string(stars as u64);
    push_str(&mut s, a.as_str());
    push_str(&mut s, "オペレーター");
    let b = decimal_string(total as u64);
    push_str(&mut s, b.as_str());
    push_str(&mut s, "名");
    push_str(&mut s, "中、第");
    let c = decimal_string(idx as u64 + 1);
    push_str(&mut s, c.as_str());
    push_str(&mut s, "位の消費です");
    s
}

/// The heading of a module: its type, marked when it is mainland-only.
pub fn module_header(eq_type: &str, cn_only: bool) -> (r: String)
    ensures
        r@ == if cn_only {
            eq_type@ + "(大陸版)"@
        } else {
            eq_type@
        },
{
    let mut s = to_owned(eq_type);
    if cn_only {
        push_str(&mut s, "(大陸版)");
    }
    s
}

/// The positions shown of a ranking of `n` skills: the ten heaviest
/// (`0..heavy_end`) and the ten lightest (`light_start..n`).
pub fn ranking_windows(n: usize) -> (r: (usize, usize))
    ensures
        r.0 == if n < 10 {
            n
        } else {
            10
        },
        r.1 == if n < 10 {
            0
        } else {
            n - 10
        },
{
    let heavy_end = if n < 10 {
        n
    } else {
        10
    };
    (heavy_end, n.saturating_sub(10))
}

/// The error when a rarity has no mastery data.
pub fn no_master_data_error(star: u32) -> (r: String)
    ensures
        r@ == "星"@ + decimal(star as nat) + "の特化データがありません"@,
{
    let mut s = to_owned("星");
    let d = decimal_string(star as u64);
    push_str(&mut s, d.as_str());
    push_str(&mut s, "の特化データがありません");
    s
}

/// How a skill of a ranking is named: `{name}(S{index})`, the skill
/// numbered from 1.
pub fn operator_name_index(operator_name: &str, index: usize) -> (r: String)
    ensures
        r@ == operator_name@ + "(S"@ + decimal(index as nat) + ")"@,
{
    let mut s = to_owned(operator_name);
    push_str(&mut s, "(S");
    let d = decimal_string(index as u64);
    push_str(&mut s, d.as_str());
    push_str(&mut s, ")");
    s
}

} // verus!
