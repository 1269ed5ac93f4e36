//! Which items each server values, and the stage categories.
use vstd::prelude::*;
use super::table::{table_insert_all, CategoryTable, StageCategoryInfo, InfoV};

verus! {

/// Which server the values are computed for.
#[derive(Clone, Copy, Debug, PartialEq, Eq, Structural)]
pub enum Server {
    Global,
    Mainland,
}

/// The items whose value is computed (mainland names), in display order.
pub open spec fn value_target_base() -> Seq<Seq<char>> {
    seq![
        "基础作战记录"@,
        "初级作战记录"@,
        "中级作战记录"@,
        "高级作战记录"@,
        "赤金"@,
        "龙门币1000"@,
        "源岩"@,
        "固源岩"@,
        "固源岩组"@,
        "提纯源岩"@,
        "破损装置"@,
        "装置"@,
        "全新装置"@,
        "改量装置"@,
        "酯原料"@,
        "聚酸酯"@,
        "聚酸酯组"@,
        "聚酸酯块"@,
        "代糖"@,
        "糖"@,
        "糖组"@,
        "糖聚块"@,
        "异铁碎片"@,
        "异铁"@,
        "异铁组"@,
        "异铁块"@,
        "双酮"@,
        "酮凝集"@,
        "酮凝集组"@,
        "酮阵列"@,
        "扭转醇"@,
        "白马醇"@,
        "轻锰矿"@,
        "三水锰矿"@,
        "研磨石"@,
        "五水研磨石"@,
        "RMA70-12"@,
        "RMA70-24"@,
        "凝胶"@,
        "聚合凝胶"@,
        "炽合金"@,
        "炽合金块"@,
        "晶体元件"@,
        "晶体电路"@,
        "半自然溶剂"@,
        "精炼溶剂"@,
        "化合切削液"@,
        "切削原液"@,
        "转质盐组"@,
        "转质盐聚块"@,
        "褐素纤维"@,
        "固化纤维板"@,
        "环烃聚质"@,
        "环烃预制体"@,
        "类凝结核"@,
        "手性屈光体"@,
        "聚合剂"@,
        "双极纳米片"@,
        "D32钢"@,
        "晶体电子单元"@,
        "烧结核凝晶"@,
        "重相位对映体"@,
        "技巧概要·卷1"@,
        "技巧概要·卷2"@,
        "技巧概要·卷3"@,
    ]
}

/// The new items that only the mainland server has.
pub open spec fn value_target_new() -> Seq<Seq<char>> {
    seq![
        "电极单元"@,
        "聚能动力单元"@,
        "液化高能气体"@,
        "液化醚吸聚体"@,
    ]
}

/// The items of the lower certificate shop.
pub open spec fn item_rarity2_base() -> Seq<Seq<char>> {
    seq![
        "固源岩组"@,
        "全新装置"@,
        "聚酸酯组"@,
        "糖组"@,
        "异铁组"@,
        "酮凝集组"@,
        "扭转醇"@,
        "轻锰矿"@,
        "研磨石"@,
        "RMA70-12"@,
        "凝胶"@,
        "炽合金"@,
        "晶体元件"@,
        "半自然溶剂"@,
        "化合切削液"@,
        "转质盐组"@,
        "褐素纤维"@,
        "环烃聚质"@,
        "类凝结核"@,
    ]
}

/// The mainland-only items of the lower certificate shop.
pub open spec fn item_rarity2_new() -> Seq<Seq<char>> {
    seq![
        "电极单元"@,
        "液化高能气体"@,
    ]
}

/// The items of the upper certificate shop.
pub open spec fn item_rarity3_base() -> Seq<Seq<char>> {
    seq![
        "提纯源岩"@,
        "改量装置"@,
        "聚酸酯块"@,
        "糖聚块"@,
        "异铁块"@,
        "酮阵列"@,
        "白马醇"@,
        "三水锰矿"@,
        "五水研磨石"@,
        "RMA70-24"@,
        "聚合凝胶"@,
        "炽合金块"@,
        "晶体电路"@,
        "精炼溶剂"@,
        "切削原液"@,
        "转质盐聚块"@,
        "固化纤维板"@,
        "环烃预制体"@,
        "手性屈光体"@,
    ]
}

/// The mainland-only items of the upper certificate shop.
pub open spec fn item_rarity3_new() -> Seq<Seq<char>> {
    seq![
        "聚能动力单元"@,
        "液化醚吸聚体"@,
    ]
}

/// The advanced materials.
pub open spec fn item_rarity4_list() -> Seq<Seq<char>> {
    seq![
        "聚合剂"@,
        "双极纳米片"@,
        "D32钢"@,
        "晶体电子单元"@,
        "烧结核凝晶"@,
        "重相位对映体"@,
    ]
}

/// The zones the mainland server has and the global one lacks.
pub open spec fn new_zone_mainland_only_list() -> Seq<Seq<char>> {
    seq![
        "main_17"@,
    ]
}

/// A base list, with the mainland-only items added for the mainland server.
pub open spec fn for_server(base: Seq<Seq<char>>, new: Seq<Seq<char>>, server: Server) -> Seq<Seq<char>> {
    if server == Server::Mainland {
        base + new
    } else {
        base
    }
}

/// Appends the items whose value is computed (mainland names), in display order.
fn push_value_target_base(v: &mut Vec<&'static str>)
    ensures
        final(v)@.map_values(|s: &str| s@) == old(v)@.map_values(|s: &str| s@) + value_target_base(),
{
    let ghost before = v@.map_values(|s: &str| s@);
    v.push("基础作战记录");
    v.push("初级作战记录");
    v.push("中级作战记录");
    v.push("高级作战记录");
    v.push("赤金");
    v.push("龙门币1000");
    v.push("源岩");
    v.push("固源岩");
    v.push("固源岩组");
    v.push("提纯源岩");
    v.push("破损装置");
    v.push("装置");
    v.push("全新装置");
    v.push("改量装置");
    v.push("酯原料");
    v.push("聚酸酯");
    v.push("聚酸酯组");
    v.push("聚酸酯块");
    v.push("代糖");
    v.push("糖");
    v.push("糖组");
    v.push("糖聚块");
    v.push("异铁碎片");
    v.push("异铁");
    v.push("异铁组");
    v.push("异铁块");
    v.push("双酮");
    v.push("酮凝集");
    v.push("酮凝集组");
    v.push("酮阵列");
    v.push("扭转醇");
    v.push("白马醇");
    v.push("轻锰矿");
    v.push("三水锰矿");
    v.push("研磨石");
    v.push("五水研磨石");
    v.push("RMA70-12");
    v.push("RMA70-24");
    v.push("凝胶");
    v.push("聚合凝胶");
    v.push("炽合金");
    v.push("炽合金块");
    v.push("晶体元件");
    v.push("晶体电路");
    v.push("半自然溶剂");
    v.push("精炼溶剂");
    v.push("化合切削液");
    v.push("切削原液");
    v.push("转质盐组");
    v.push("转质盐聚块");
    v.push("褐素纤维");
    v.push("固化纤维板");
    v.push("环烃聚质");
    v.push("环烃预制体");
    v.push("类凝结核");
    v.push("手性屈光体");
    v.push("聚合剂");
    v.push("双极纳米片");
    v.push("D32钢");
    v.push("晶体电子单元");
    v.push("烧结核凝晶");
    v.push("重相位对映体");
    v.push("技巧概要·卷1");
    v.push("技巧概要·卷2");
    v.push("技巧概要·卷3");
    assert(v@.map_values(|s: &str| s@) =~= before + value_target_base());
}

/// Appends the new items that only the mainland server has.
fn push_value_target_new(v: &mut Vec<&'static str>)
    ensures
        final(v)@.map_values(|s: &str| s@) == old(v)@.map_values(|s: &str| s@) + value_target_new(),
{
    let ghost before = v@.map_values(|s: &str| s@);
    v.push("电极单元");
    v.push("聚能动力单元");
    v.push("液化高能气体");
    v.push("液化醚吸聚体");
    assert(v@.map_values(|s: &str| s@) =~= before + value_target_new());
}

/// Appends the items of the lower certificate shop.
fn push_item_rarity2_base(v: &mut Vec<&'static str>)
    ensures
        final(v)@.map_values(|s: &str| s@) == old(v)@.map_values(|s: &str| s@) + item_rarity2_base(),
{
    let ghost before = v@.map_values(|s: &str| s@);
    v.push("固源岩组");
    v.push("全新装置");
    v.push("聚酸酯组");
    v.push("糖组");
    v.push("异铁组");
    v.push("酮凝集组");
    v.push("扭转醇");
    v.push("轻锰矿");
    v.push("研磨石");
    v.push("RMA70-12");
    v.push("凝胶");
    v.push("炽合金");
    v.push("晶体元件");
    v.push("半自然溶剂");
    v.push("化合切削液");
    v.push("转质盐组");
    v.push("褐素纤维");
    v.push("环烃聚质");
    v.push("类凝结核");
    assert(v@.map_values(|s: &str| s@) =~= before + item_rarity2_base());
}

/// Appends the mainland-only items of the lower certificate shop.
fn push_item_rarity2_new(v: &mut Vec<&'static str>)
    ensures
        final(v)@.map_values(|s: &str| s@) == old(v)@.map_values(|s: &str| s@) + item_rarity2_new(),
{
    let ghost before = v@.map_values(|s: &str| s@);
    v.push("电极单元");
    v.push("液化高能气体");
    assert(v@.map_values(|s: &str| s@) =~= before + item_rarity2_new());
}

/// Appends the items of the upper certificate shop.
fn push_item_rarity3_base(v: &mut Vec<&'static str>)
    ensures
        final(v)@.map_values(|s: &str| s@) == old(v)@.map_values(|s: &str| s@) + item_rarity3_base(),
{
    let ghost before = v@.map_values(|s: &str| s@);
    v.push("提纯源岩");
    v.push("改量装置");
    v.push("聚酸酯块");
    v.push("糖聚块");
    v.push("异铁块");
    v.push("酮阵列");
    v.push("白马醇");
    v.push("三水锰矿");
    v.push("五水研磨石");
    v.push("RMA70-24");
    v.push("聚合凝胶");
    v.push("炽合金块");
    v.push("晶体电路");
    v.push("精炼溶剂");
    v.push("切削原液");
    v.push("转质盐聚块");
    v.push("固化纤维板");
    v.push("环烃预制体");
    v.push("手性屈光体");
    assert(v@.map_values(|s: &str| s@) =~= before + item_rarity3_base());
}

/// Appends the mainland-only items of the upper certificate shop.
fn push_item_rarity3_new(v: &mut Vec<&'static str>)
    ensures
        final(v)@.map_values(|s: &str| s@) == old(v)@.map_values(|s: &str| s@) + item_rarity3_new(),
{
    let ghost before = v@.map_values(|s: &str| s@);
    v.push("聚能动力单元");
    v.push("液化醚吸聚体");
    assert(v@.map_values(|s: &str| s@) =~= before + item_rarity3_new());
}

/// Appends the advanced materials.
fn push_item_rarity4_list(v: &mut Vec<&'static str>)
    ensures
        final(v)@.map_values(|s: &str| s@) == old(v)@.map_values(|s: &str| s@) + item_rarity4_list(),
{
    let ghost before = v@.map_values(|s: &str| s@);
    v.push("聚合剂");
    v.push("双极纳米片");
    v.push("D32钢");
    v.push("晶体电子单元");
    v.push("烧结核凝晶");
    v.push("重相位对映体");
    assert(v@.map_values(|s: &str| s@) =~= before + item_rarity4_list());
}

/// Appends the zones the mainland server has and the global one lacks.
fn push_new_zone_mainland_only(v: &mut Vec<&'static str>)
    ensures
        final(v)@.map_values(|s: &str| s@) == old(v)@.map_values(|s: &str| s@) + new_zone_mainland_only_list(),
{
    let ghost before = v@.map_values(|s: &str| s@);
    v.push("main_17");
    assert(v@.map_values(|s: &str| s@) =~= before + new_zone_mainland_only_list());
}

/// The items whose value is computed for `server`, in display order.
pub fn value_target(server: Server) -> (r: Vec<&'static str>)
    ensures
        r@.map_values(|s: &str| s@) == for_server(value_target_base(), value_target_new(), server),
{
    let mut v: Vec<&'static str> = Vec::new();
    assert(v@.map_values(|s: &str| s@) =~= Seq::<Seq<char>>::empty());
    push_value_target_base(&mut v);
    if server == Server::Mainland {
        push_value_target_new(&mut v);
    }
    assert(v@.map_values(|s: &str| s@) =~= for_server(value_target_base(), value_target_new(), server));
    v
}

/// The items of the lower certificate shop for `server`.
pub fn item_rarity2(server: Server) -> (r: Vec<&'static str>)
    ensures
        r@.map_values(|s: &str| s@) == for_server(item_rarity2_base(), item_rarity2_new(), server),
{
    let mut v: Vec<&'static str> = Vec::new();
    assert(v@.map_values(|s: &str| s@) =~= Seq::<Seq<char>>::empty());
    push_item_rarity2_base(&mut v);
    if server == Server::Mainland {
        push_item_rarity2_new(&mut v);
    }
    assert(v@.map_values(|s: &str| s@) =~= for_server(item_rarity2_base(), item_rarity2_new(), server));
    v
}

/// The items of the upper certificate shop for `server`.
pub fn item_rarity3(server: Server) -> (r: Vec<&'static str>)
    ensures
        r@.map_values(|s: &str| s@) == for_server(item_rarity3_base(), item_rarity3_new(), server),
{
    let mut v: Vec<&'static str> = Vec::new();
    assert(v@.map_values(|s: &str| s@) =~= Seq::<Seq<char>>::empty());
    push_item_rarity3_base(&mut v);
    if server == Server::Mainland {
        push_item_rarity3_new(&mut v);
    }
    assert(v@.map_values(|s: &str| s@) =~= for_server(item_rarity3_base(), item_rarity3_new(), server));
    v
}

/// The advanced materials; the same for both servers.
pub fn item_rarity4(_server: Server) -> (r: Vec<&'static str>)
    ensures
        r@.map_values(|s: &str| s@) == item_rarity4_list(),
{
    let mut v: Vec<&'static str> = Vec::new();
    assert(v@.map_values(|s: &str| s@) =~= Seq::<Seq<char>>::empty());
    push_item_rarity4_list(&mut v);
    assert(v@.map_values(|s: &str| s@) =~= item_rarity4_list());
    v
}

/// The zones only the mainland server has.
pub fn new_zone_mainland_only() -> (r: Vec<&'static str>)
    ensures
        r@.map_values(|s: &str| s@) == new_zone_mainland_only_list(),
{
    let mut v: Vec<&'static str> = Vec::new();
    assert(v@.map_values(|s: &str| s@) =~= Seq::<Seq<char>>::empty());
    push_new_zone_mainland_only(&mut v);
    assert(v@.map_values(|s: &str| s@) =~= new_zone_mainland_only_list());
    v
}


/// The stage-category file: the categories every server has, and those
/// only the mainland server has.
pub struct StageCategoryFile {
    pub main: CategoryTable,
    pub new: CategoryTable,
}

/// The categories of `server`: for the mainland server the mainland-only
/// categories are set over the common ones.
pub fn stage_category_dict(file: &StageCategoryFile, server: Server) -> (r: CategoryTable)
    ensures
        r@ == if server == Server::Mainland {
            table_insert_all(file.main@, file.new@)
        } else {
            file.main@
        },
{
    let mut dict = file.main.copy();
    if server == Server::Mainland {
        let ghost m = file.main@;
        let es = file.new.entries();
        let ghost ev = file.new@;
        let n = es.len();
        assert(ev.take(0) =~= Seq::<(Seq<char>, InfoV)>::empty());
        for i in 0..n
            invariant
                n == es@.len(),
                es@.map_values(|e: (String, StageCategoryInfo)| (e.0@, e.1@)) == ev,
                m == file.main@,
                dict@ == table_insert_all(m, ev.take(i as int)),
        {
            assert(ev.take(i + 1).drop_last() =~= ev.take(i as int));
            assert(ev.take(i + 1).last() == ev[i as int]);
            assert(ev[i as int] == (es@[i as int].0@, es@[i as int].1@));
            dict.insert(es[i].0.clone(), es[i].1.copy());
        }
        assert(ev.take(n as int) =~= ev);
    }
    dict
}

} // verus!
