//! How stages and exchange items are written: a stage's main drops, and an
//! exchange item's name with its quantity.
use vstd::prelude::*;
use crate::outer_source::item_names::{ItemNames, ItemNamesV};
use crate::outer_source::names::lookup;
use crate::text::{join, join_seq, push_str, str_eq, to_owned, views};

verus! {

/// The Japanese name of an item, else its mainland name, else "Missing".
pub open spec fn item_display_name(n: ItemNamesV, id: Seq<char>) -> Seq<char> {
    match lookup(n.id_to_ja, id) {
        Some(s) => s,
        None => match lookup(n.id_to_zh, id) {
            Some(s) => s,
            None => "Missing"@,
        },
    }
}

/// The Japanese name of an item given by its mainland name, else that name.
pub open spec fn zh_display_name(n: ItemNamesV, zh: Seq<char>) -> Seq<char> {
    match lookup(n.zh_to_id, zh) {
        Some(id) => match lookup(n.id_to_ja, id) {
            Some(ja) => ja,
            None => zh,
        },
        None => zh,
    }
}

/// A stage's main drops as shown after its code: a space, then the drops'
/// names separated by spaces; nothing when that would be empty.
pub open spec fn main_drop_text(n: ItemNamesV, ids: Seq<Seq<char>>) -> Seq<char> {
    let msg = join_seq(ids.map_values(|id: Seq<char>| item_display_name(n, id)), " "@);
    if msg.len() == 0 {
        seq![]
    } else {
        " "@ + msg
    }
}

/// The main drops of a stage as shown after its code (see
/// `main_drop_text`).
pub fn main_drop_ja_str(main_drop_ids: &Vec<String>, item_names: &ItemNames) -> (r: String)
    ensures
        r@ == main_drop_text(item_names@, views(main_drop_ids@)),
{
    let ghost ids = views(main_drop_ids@);
    let ghost f = |id: Seq<char>| item_display_name(item_names@, id);
    let mut names: Vec<String> = Vec::new();
    let n = main_drop_ids.len();
    for i in 0..n
        invariant
            n == main_drop_ids@.len(),
            ids == views(main_drop_ids@),
            f == (|id: Seq<char>| item_display_name(item_names@, id)),
            views(names@) == ids.take(i as int).map_values(f),
    {
        let ghost before = views(names@);
        names.push(to_owned(item_names.get_str(main_drop_ids[i].as_str())));
        assert(views(names@) =~= before.push(f(ids[i as int])));
        assert(ids.take(i + 1).map_values(f) =~= ids.take(i as int).map_values(f).push(f(ids[i as int])));
    }
    assert(ids.take(n as int) =~= ids);
    let msg = join(&names, " ");
    if str_eq(msg.as_str(), "") {
        proof {
            reveal_strlit("");
        }
        String::new()
    } else {
        proof {
            reveal_strlit("");
            if msg@.len() == 0 {
                assert(msg@ =~= ""@);
            }
        }
        let mut s = to_owned(" ");
        push_str(&mut s, msg.as_str());
        s
    }
}

/// An exchange item's name: its Japanese name, followed by its quantity in
/// brackets when that is unlimited ("∞").
pub open spec fn exchange_name(n: ItemNamesV, name: Seq<char>, quantity: Seq<char>) -> Seq<char> {
    let ja = zh_display_name(n, name);
    if quantity == "∞"@ {
        ja + "("@ + quantity + ")"@
    } else {
        ja
    }
}

/// The name of an exchange item given by its mainland name and quantity
/// (see `exchange_name`).
pub fn full_name(item_names: &ItemNames, name: &str, quantity: &str) -> (r: String)
    ensures
        r@ == exchange_name(item_names@, name@, quantity@),
{
    let ja = item_names.zh_to_ja(name);
    if str_eq(quantity, "∞") {
        let mut s = to_owned(ja);
        push_str(&mut s, "(");
        push_str(&mut s, quantity);
        push_str(&mut s, ")");
        s
    } else {
        to_owned(ja)
    }
}

} // verus!
