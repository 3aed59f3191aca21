//! Which input ports an output port is linked to.

use vstd::prelude::*;
use crate::models::{as_text, PortRecord};
use crate::text::{opt_text, text_eq, to_upper, upper};

verus! {

/// The side of a stereo image that a channel belongs to.
#[derive(Debug, Clone, Copy, PartialEq, Eq, Structural)]
pub enum ChannelRole {
    Left,
    Right,
    Both,
    Unknown,
}

pub open spec fn is_left_name(c: Seq<char>) -> bool {
    ||| c == "FL"@
    ||| c == "FRONT-LEFT"@
    ||| c == "SL"@
    ||| c == "SIDE-LEFT"@
    ||| c == "RL"@
    ||| c == "REAR-LEFT"@
    ||| c == "FLC"@
}

pub open spec fn is_right_name(c: Seq<char>) -> bool {
    ||| c == "FR"@
    ||| c == "FRONT-RIGHT"@
    ||| c == "SR"@
    ||| c == "SIDE-RIGHT"@
    ||| c == "RR"@
    ||| c == "REAR-RIGHT"@
    ||| c == "FRC"@
}

pub open spec fn is_centre_name(c: Seq<char>) -> bool {
    ||| c == "FC"@
    ||| c == "LFE"@
    ||| c == "RC"@
    ||| c == "MONO"@
}

/// The role of a channel name in upper case.
pub open spec fn role_named(c: Seq<char>) -> ChannelRole {
    if is_left_name(c) {
        ChannelRole::Left
    } else if is_right_name(c) {
        ChannelRole::Right
    } else if is_centre_name(c) {
        ChannelRole::Both
    } else {
        ChannelRole::Unknown
    }
}

/// The role of a channel; the case of its name does not matter, and no name is
/// as good as an empty one.
pub open spec fn role(channel: Option<Seq<char>>) -> ChannelRole {
    match channel {
        Some(c) => role_named(upper(c)),
        None => role_named(upper(""@)),
    }
}

pub open spec fn port_role(p: PortRecord) -> ChannelRole {
    role(opt_text(p.channel))
}

pub open spec fn same_index(a: PortRecord, b: PortRecord) -> bool {
    a.port_index is Some && b.port_index is Some && opt_text(a.port_index) == opt_text(
        b.port_index,
    )
}

pub open spec fn plays(r: ChannelRole) -> spec_fn(PortRecord) -> bool {
    |p: PortRecord| port_role(p) == r
}

/// The first of `inputs` with the port index of `output`.
pub open spec fn twin(output: PortRecord, inputs: Seq<PortRecord>) -> Option<PortRecord>
    decreases inputs.len(),
{
    if inputs.len() == 0 {
        None
    } else if same_index(output, inputs[0]) {
        Some(inputs[0])
    } else {
        twin(output, inputs.drop_first())
    }
}

/// The one input for an output that no channel name places: the input with the
/// same port index, else the input at the same position, else `last_resort`.
pub open spec fn single(
    outputs: Seq<PortRecord>,
    inputs: Seq<PortRecord>,
    i: int,
    last_resort: PortRecord,
) -> PortRecord {
    match twin(outputs[i], inputs) {
        Some(p) => p,
        None => if i < inputs.len() {
            inputs[i]
        } else {
            last_resort
        },
    }
}

/// The inputs that output `i` is linked to.
pub open spec fn targets(outputs: Seq<PortRecord>, inputs: Seq<PortRecord>, i: int) -> Seq<
    PortRecord,
> {
    let left = inputs.filter(plays(ChannelRole::Left));
    let right = inputs.filter(plays(ChannelRole::Right));
    match port_role(outputs[i]) {
        ChannelRole::Left => if left.len() > 0 {
            left
        } else {
            seq![single(outputs, inputs, i, inputs[0])]
        },
        ChannelRole::Right => if right.len() > 0 {
            right
        } else {
            seq![single(outputs, inputs, i, inputs.last())]
        },
        ChannelRole::Both => if left.len() > 0 || right.len() > 0 {
            left + right
        } else {
            inputs
        },
        ChannelRole::Unknown => if outputs.len() == 1 {
            inputs
        } else {
            seq![single(outputs, inputs, i, inputs.last())]
        },
    }
}

pub open spec fn pair_up(output: PortRecord, inputs: Seq<PortRecord>) -> Seq<
    (PortRecord, PortRecord),
> {
    Seq::new(inputs.len(), |j: int| (output, inputs[j]))
}

/// The pairs of the first `n` outputs, output by output.
pub open spec fn pairs(outputs: Seq<PortRecord>, inputs: Seq<PortRecord>, n: int) -> Seq<
    (PortRecord, PortRecord),
>
    decreases n,
{
    if n <= 0 {
        Seq::empty()
    } else {
        pairs(outputs, inputs, n - 1) + pair_up(outputs[n - 1], targets(outputs, inputs, n - 1))
    }
}

/// All links between `outputs` and `inputs`.
pub open spec fn mapping(outputs: Seq<PortRecord>, inputs: Seq<PortRecord>) -> Seq<
    (PortRecord, PortRecord),
> {
    if inputs.len() == 0 {
        Seq::empty()
    } else {
        pairs(outputs, inputs, outputs.len() as int)
    }
}

pub fn channel_role(channel: Option<&str>) -> (r: ChannelRole)
    ensures
        r == (match channel {
            Some(c) => role(Some(c@)),
            None => role(None),
        }),
{
    let name = match channel {
        Some(c) => to_upper(c),
        None => to_upper(""),
    };
    let c = name.as_str();
    if text_eq(c, "FL") || text_eq(c, "FRONT-LEFT") || text_eq(c, "SL") || text_eq(c, "SIDE-LEFT")
        || text_eq(c, "RL") || text_eq(c, "REAR-LEFT") || text_eq(c, "FLC") {
        ChannelRole::Left
    } else if text_eq(c, "FR") || text_eq(c, "FRONT-RIGHT") || text_eq(c, "SR") || text_eq(
        c,
        "SIDE-RIGHT",
    ) || text_eq(c, "RR") || text_eq(c, "REAR-RIGHT") || text_eq(c, "FRC") {
        ChannelRole::Right
    } else if text_eq(c, "FC") || text_eq(c, "LFE") || text_eq(c, "RC") || text_eq(c, "MONO") {
        ChannelRole::Both
    } else {
        ChannelRole::Unknown
    }
}

pub fn same_port_index(left: &PortRecord, right: &PortRecord) -> (r: bool)
    ensures
        r == same_index(*left, *right),
{
    match (as_text(&left.port_index), as_text(&right.port_index)) {
        (Some(a), Some(b)) => text_eq(a, b),
        _ => false,
    }
}

fn role_of(p: &PortRecord) -> (r: ChannelRole)
    ensures
        r == port_role(*p),
{
    channel_role(as_text(&p.channel))
}

fn inputs_playing(inputs: &Vec<PortRecord>, wanted: ChannelRole) -> (r: Vec<PortRecord>)
    ensures
        r@ == inputs@.filter(plays(wanted)),
{
    let mut r: Vec<PortRecord> = Vec::new();
    let mut i: usize = 0;
    assert(inputs@.take(0) =~= Seq::<PortRecord>::empty());
    while i < inputs.len()
        invariant
            i <= inputs@.len(),
            r@ == inputs@.take(i as int).filter(plays(wanted)),
        decreases inputs@.len() - i,
    {
        proof {
            let head = inputs@.take(i as int);
            head.lemma_filter_push(inputs@[i as int], plays(wanted));
            assert(inputs@.take(i + 1) =~= head.push(inputs@[i as int]));
        }
        if role_of(&inputs[i]) == wanted {
            r.push(inputs[i].clone());
        }
        i = i + 1;
    }
    assert(inputs@.take(inputs@.len() as int) =~= inputs@);
    r
}

fn find_twin<'a>(output: &PortRecord, inputs: &'a Vec<PortRecord>) -> (r: Option<&'a PortRecord>)
    ensures
        match r {
            Some(p) => twin(*output, inputs@) == Some(*p),
            None => twin(*output, inputs@) is None,
        },
{
    let mut i: usize = 0;
    assert(inputs@.skip(0) =~= inputs@);
    while i < inputs.len()
        invariant
            i <= inputs@.len(),
            twin(*output, inputs@) == twin(*output, inputs@.skip(i as int)),
        decreases inputs@.len() - i,
    {
        assert(inputs@.skip(i as int)[0] == inputs@[i as int]);
        assert(inputs@.skip(i as int).drop_first() =~= inputs@.skip(i + 1));
        if same_port_index(output, &inputs[i]) {
            return Some(&inputs[i]);
        }
        i = i + 1;
    }
    None
}

/// Adds `output` paired with each of `inputs`.
fn push_pairs(
    mapped: &mut Vec<(PortRecord, PortRecord)>,
    output: &PortRecord,
    inputs: &Vec<PortRecord>,
)
    ensures
        final(mapped)@ == old(mapped)@ + pair_up(*output, inputs@),
{
    let ghost before = mapped@;
    let mut i: usize = 0;
    assert(before + pair_up(*output, inputs@.take(0)) =~= before);
    while i < inputs.len()
        invariant
            i <= inputs@.len(),
            mapped@ == before + pair_up(*output, inputs@.take(i as int)),
        decreases inputs@.len() - i,
    {
        mapped.push((output.clone(), inputs[i].clone()));
        assert(before + pair_up(*output, inputs@.take(i + 1)) =~= (before + pair_up(
            *output,
            inputs@.take(i as int),
        )).push((*output, inputs@[i as int])));
        i = i + 1;
    }
    assert(inputs@.take(inputs@.len() as int) =~= inputs@);
}

/// Adds `output` paired with the one input that suits it.
fn push_single(
    mapped: &mut Vec<(PortRecord, PortRecord)>,
    outputs: &Vec<PortRecord>,
    inputs: &Vec<PortRecord>,
    i: usize,
    last_resort: usize,
)
    requires
        i < outputs@.len(),
        last_resort < inputs@.len(),
    ensures
        final(mapped)@ == old(mapped)@ + pair_up(
            outputs@[i as int],
            seq![single(outputs@, inputs@, i as int, inputs@[last_resort as int])],
        ),
{
    let ghost before = mapped@;
    let output = &outputs[i];
    let input = match find_twin(output, inputs) {
        Some(p) => p,
        None => if i < inputs.len() {
            &inputs[i]
        } else {
            &inputs[last_resort]
        },
    };
    mapped.push((output.clone(), input.clone()));
    assert(mapped@ =~= before + pair_up(
        outputs@[i as int],
        seq![single(outputs@, inputs@, i as int, inputs@[last_resort as int])],
    ));
}

/// The links that carry `outputs` into `inputs`: by channel where the channels
/// are known, by port index or position where they are not.
pub fn map_ports(outputs: &Vec<PortRecord>, inputs: &Vec<PortRecord>) -> (mapped: Vec<
    (PortRecord, PortRecord),
>)
    ensures
        mapped@ == mapping(outputs@, inputs@),
{
    let mut mapped: Vec<(PortRecord, PortRecord)> = Vec::new();
    if outputs.len() == 0 || inputs.len() == 0 {
        return mapped;
    }
    let left_inputs = inputs_playing(inputs, ChannelRole::Left);
    let right_inputs = inputs_playing(inputs, ChannelRole::Right);
    let last: usize = inputs.len() - 1;
    let mut i: usize = 0;
    while i < outputs.len()
        invariant
            i <= outputs@.len(),
            inputs@.len() > 0,
            last == inputs@.len() - 1,
            left_inputs@ == inputs@.filter(plays(ChannelRole::Left)),
            right_inputs@ == inputs@.filter(plays(ChannelRole::Right)),
            mapped@ == pairs(outputs@, inputs@, i as int),
        decreases outputs@.len() - i,
    {
        let ghost before = mapped@;
        match role_of(&outputs[i]) {
            ChannelRole::Left => {
                if left_inputs.len() > 0 {
                    push_pairs(&mut mapped, &outputs[i], &left_inputs);
                } else {
                    push_single(&mut mapped, outputs, inputs, i, 0);
                }
            },
            ChannelRole::Right => {
                if right_inputs.len() > 0 {
                    push_pairs(&mut mapped, &outputs[i], &right_inputs);
                } else {
                    push_single(&mut mapped, outputs, inputs, i, last);
                }
            },
            ChannelRole::Both => {
                if left_inputs.len() > 0 || right_inputs.len() > 0 {
                    push_pairs(&mut mapped, &outputs[i], &left_inputs);
                    push_pairs(&mut mapped, &outputs[i], &right_inputs);
                    assert(mapped@ =~= before + pair_up(
                        outputs@[i as int],
                        left_inputs@ + right_inputs@,
                    ));
                } else {
                    push_pairs(&mut mapped, &outputs[i], inputs);
                }
            },
            ChannelRole::Unknown => {
                if outputs.len() == 1 {
                    push_pairs(&mut mapped, &outputs[i], inputs);
                } else {
                    push_single(&mut mapped, outputs, inputs, i, last);
                }
            },
        }
        assert(mapped@ =~= before + pair_up(
            outputs@[i as int],
            targets(outputs@, inputs@, i as int),
        ));
        i = i + 1;
    }
    mapped
}

proof fn lemma_twin(output: PortRecord, inputs: Seq<PortRecord>)
    ensures
        twin(output, inputs) matches Some(p) ==> inputs.contains(p),
    decreases inputs.len(),
{
    if inputs.len() > 0 && !same_index(output, inputs[0]) {
        lemma_twin(output, inputs.drop_first());
        if let Some(p) = twin(output, inputs.drop_first()) {
            let i = inputs.drop_first().index_of(p);
            assert(inputs[i + 1] == p);
        }
    } else if inputs.len() > 0 {
        assert(inputs.contains(inputs[0]));
    }
}

proof fn lemma_targets(outputs: Seq<PortRecord>, inputs: Seq<PortRecord>, i: int)
    requires
        0 <= i < outputs.len(),
        inputs.len() > 0,
    ensures
        targets(outputs, inputs, i).len() > 0,
        forall|j: int|
            0 <= j < targets(outputs, inputs, i).len() ==> inputs.contains(
                #[trigger] targets(outputs, inputs, i)[j],
            ),
{
    lemma_twin(outputs[i], inputs);
    assert(inputs.contains(inputs[0]));
    assert(inputs.contains(inputs.last()));
    let left = inputs.filter(plays(ChannelRole::Left));
    let right = inputs.filter(plays(ChannelRole::Right));
    assert forall|j: int| 0 <= j < left.len() implies inputs.contains(#[trigger] left[j]) by {
        assert(left.contains(left[j]));
        inputs.lemma_filter_contains_rev(plays(ChannelRole::Left), left[j]);
    }
    assert forall|j: int| 0 <= j < right.len() implies inputs.contains(#[trigger] right[j]) by {
        assert(right.contains(right[j]));
        inputs.lemma_filter_contains_rev(plays(ChannelRole::Right), right[j]);
    }
}

/// Every pair joins one of the outputs to one of the inputs.
pub proof fn mapping_joins_given_ports(outputs: Seq<PortRecord>, inputs: Seq<PortRecord>, k: int)
    requires
        0 <= k < mapping(outputs, inputs).len(),
    ensures
        outputs.contains(mapping(outputs, inputs)[k].0),
        inputs.contains(mapping(outputs, inputs)[k].1),
{
    lemma_pairs_join(outputs, inputs, outputs.len() as int, k);
}

proof fn lemma_pairs_join(outputs: Seq<PortRecord>, inputs: Seq<PortRecord>, n: int, k: int)
    requires
        0 <= n <= outputs.len(),
        inputs.len() > 0,
        0 <= k < pairs(outputs, inputs, n).len(),
    ensures
        outputs.contains(pairs(outputs, inputs, n)[k].0),
        inputs.contains(pairs(outputs, inputs, n)[k].1),
    decreases n,
{
    if n > 0 {
        let head = pairs(outputs, inputs, n - 1);
        if k < head.len() {
            lemma_pairs_join(outputs, inputs, n - 1, k);
        } else {
            lemma_targets(outputs, inputs, n - 1);
            assert(outputs.contains(outputs[n - 1]));
        }
    }
}

/// Where there is an input at all, no output stays unlinked.
pub proof fn mapping_links_every_output(
    outputs: Seq<PortRecord>,
    inputs: Seq<PortRecord>,
    i: int,
)
    requires
        0 <= i < outputs.len(),
        inputs.len() > 0,
    ensures
        exists|k: int|
            0 <= k < mapping(outputs, inputs).len() && (#[trigger] mapping(outputs, inputs)[k]).0
                == outputs[i],
{
    lemma_pairs_cover(outputs, inputs, outputs.len() as int, i);
    let all = pairs(outputs, inputs, outputs.len() as int);
    let k = choose|k: int| 0 <= k < all.len() && (#[trigger] all[k]).0 == outputs[i];
    assert(mapping(outputs, inputs)[k].0 == outputs[i]);
}

proof fn lemma_pairs_cover(outputs: Seq<PortRecord>, inputs: Seq<PortRecord>, n: int, i: int)
    requires
        0 <= i < n <= outputs.len(),
        inputs.len() > 0,
    ensures
        exists|k: int|
            0 <= k < pairs(outputs, inputs, n).len() && (#[trigger] pairs(outputs, inputs, n)[k]).0
                == outputs[i],
    decreases n,
{
    let head = pairs(outputs, inputs, n - 1);
    let all = pairs(outputs, inputs, n);
    if i == n - 1 {
        lemma_targets(outputs, inputs, n - 1);
        assert(all[head.len() as int].0 == outputs[i]);
    } else {
        lemma_pairs_cover(outputs, inputs, n - 1, i);
        let k = choose|k: int| 0 <= k < head.len() && (#[trigger] head[k]).0 == outputs[i];
        assert(all[k] == head[k]);
    }
}

/// A left output reaches left inputs alone where there is a left input, and a
/// right output right inputs alone where there is a right input.
pub proof fn mapping_keeps_sides(outputs: Seq<PortRecord>, inputs: Seq<PortRecord>, k: int)
    requires
        0 <= k < mapping(outputs, inputs).len(),
    ensures
        ({
            let pair = mapping(outputs, inputs)[k];
            let side = port_role(pair.0);
            (side == ChannelRole::Left || side == ChannelRole::Right) && inputs.filter(
                plays(side),
            ).len() > 0 ==> port_role(pair.1) == side
        }),
{
    lemma_pairs_keep_sides(outputs, inputs, outputs.len() as int, k);
}

proof fn lemma_pairs_keep_sides(outputs: Seq<PortRecord>, inputs: Seq<PortRecord>, n: int, k: int)
    requires
        0 <= n <= outputs.len(),
        inputs.len() > 0,
        0 <= k < pairs(outputs, inputs, n).len(),
    ensures
        ({
            let pair = pairs(outputs, inputs, n)[k];
            let side = port_role(pair.0);
            (side == ChannelRole::Left || side == ChannelRole::Right) && inputs.filter(
                plays(side),
            ).len() > 0 ==> port_role(pair.1) == side
        }),
    decreases n,
{
    if n > 0 {
        let head = pairs(outputs, inputs, n - 1);
        if k < head.len() {
            lemma_pairs_keep_sides(outputs, inputs, n - 1, k);
        } else {
            let side = port_role(outputs[n - 1]);
            broadcast use vstd::seq_lib::group_filter_ensures;

        }
    }
}

/// Each id once, in the order of its first occurrence.
pub open spec fn distinct(ids: Seq<u32>) -> Seq<u32>
    decreases ids.len(),
{
    if ids.len() == 0 {
        Seq::empty()
    } else {
        let head = distinct(ids.drop_last());
        if ids.drop_last().contains(ids.last()) {
            head
        } else {
            head.push(ids.last())
        }
    }
}

/// Distinct ids are distinct, and they are the ids that were given.
pub proof fn distinct_keeps_each_id_once(ids: Seq<u32>)
    ensures
        distinct(ids).no_duplicates(),
        forall|id: u32| #[trigger] distinct(ids).contains(id) == ids.contains(id),
    decreases ids.len(),
{
    if ids.len() > 0 {
        let head = ids.drop_last();
        distinct_keeps_each_id_once(head);
        let d = distinct(head);
        assert forall|id: u32| #[trigger] distinct(ids).contains(id) == ids.contains(id) by {
            if ids.contains(id) {
                let k = ids.index_of(id);
                if k < head.len() {
                    assert(head[k] == id);
                    assert(d.contains(id));
                    let j = d.index_of(id);
                    assert(distinct(ids)[j] == id);
                } else {
                    if head.contains(id) {
                        assert(d.contains(id));
                    } else {
                        assert(distinct(ids)[d.len() as int] == id);
                    }
                }
            }
            if distinct(ids).contains(id) {
                let j = distinct(ids).index_of(id);
                if j < d.len() {
                    assert(d[j] == id);
                    assert(d.contains(id));
                    let k = head.index_of(id);
                    assert(ids[k] == id);
                } else {
                    assert(ids[ids.len() - 1] == id);
                }
            }
        }
        if !head.contains(ids.last()) {
            assert forall|i: int, j: int|
                0 <= i < j < distinct(ids).len() implies distinct(ids)[i] != distinct(ids)[j] by {
                if j == d.len() {
                    assert(d.contains(d[i]));
                }
            }
        }
    }
}

/// Ids that are distinct already stay as they are.
pub proof fn distinct_is_idempotent(ids: Seq<u32>)
    requires
        ids.no_duplicates(),
    ensures
        distinct(ids) == ids,
    decreases ids.len(),
{
    if ids.len() > 0 {
        let head = ids.drop_last();
        distinct_is_idempotent(head);
        if head.contains(ids.last()) {
            let k = head.index_of(ids.last());
            assert(ids[k] == ids[ids.len() - 1]);
        }
        assert(head.push(ids.last()) =~= ids);
    } else {
        assert(distinct(ids) =~= ids);
    }
}

pub fn dedupe_node_ids(node_ids: Vec<u32>) -> (deduped: Vec<u32>)
    ensures
        deduped@ == distinct(node_ids@),
{
    let mut deduped: Vec<u32> = Vec::new();
    let mut i: usize = 0;
    while i < node_ids.len()
        invariant
            i <= node_ids@.len(),
            deduped@ == distinct(node_ids@.take(i as int)),
        decreases node_ids@.len() - i,
    {
        let id: u32 = node_ids[i];
        let mut seen = false;
        let mut j: usize = 0;
        while j < deduped.len()
            invariant
                j <= deduped@.len(),
                seen == deduped@.take(j as int).contains(id),
            decreases deduped@.len() - j,
        {
            let ghost before = deduped@.take(j as int);
            let ghost after = deduped@.take(j + 1);
            proof {
                assert(after =~= before.push(deduped@[j as int]));
                if before.contains(id) {
                    let k = before.index_of(id);
                    assert(after[k] == id);
                }
                if after.contains(id) && deduped@[j as int] != id {
                    let k = after.index_of(id);
                    assert(before[k] == id);
                }
                assert(after[j as int] == deduped@[j as int]);
            }
            if deduped[j] == id {
                seen = true;
            }
            j = j + 1;
        }
        proof {
            assert(deduped@.take(deduped@.len() as int) =~= deduped@);
            assert(node_ids@.take(i + 1).drop_last() =~= node_ids@.take(i as int));
            distinct_keeps_each_id_once(node_ids@.take(i as int));
        }
        if !seen {
            deduped.push(id);
        }
        i = i + 1;
    }
    assert(node_ids@.take(node_ids@.len() as int) =~= node_ids@);
    deduped
}

/// The port is told to play a channel whose name, in whatever case it is
/// written, is one of `names`.
pub open spec fn called_one_of(p: PortRecord, names: Seq<Seq<char>>) -> bool {
    p.channel matches Some(c) && names.contains(upper(c@))
}

/// A port plays the left side exactly if its channel bears one of the seven left
/// names, the right side exactly if it bears one of the seven right names, and
/// both sides exactly if it bears one of the four names of the centre. The case
/// of the name does not matter; any other name says nothing, nor does no name.
pub proof fn channel_names_tell_the_side(p: PortRecord)
    ensures
        (port_role(p) == ChannelRole::Left) == called_one_of(
            p,
            seq![
                "FL"@,
                "FLC"@,
                "FRONT-LEFT"@,
                "SL"@,
                "SIDE-LEFT"@,
                "RL"@,
                "REAR-LEFT"@,
            ],
        ),
        (port_role(p) == ChannelRole::Right) == called_one_of(
            p,
            seq![
                "FR"@,
                "FRC"@,
                "FRONT-RIGHT"@,
                "SR"@,
                "SIDE-RIGHT"@,
                "RR"@,
                "REAR-RIGHT"@,
            ],
        ),
        (port_role(p) == ChannelRole::Both) == called_one_of(
            p,
            seq!["FC"@, "LFE"@, "RC"@, "MONO"@],
        ),
{
    reveal_strlit("FL");
    reveal_strlit("FLC");
    reveal_strlit("FRONT-LEFT");
    reveal_strlit("SL");
    reveal_strlit("SIDE-LEFT");
    reveal_strlit("RL");
    reveal_strlit("REAR-LEFT");
    reveal_strlit("FR");
    reveal_strlit("FRC");
    reveal_strlit("FRONT-RIGHT");
    reveal_strlit("SR");
    reveal_strlit("SIDE-RIGHT");
    reveal_strlit("RR");
    reveal_strlit("REAR-RIGHT");
    reveal_strlit("FC");
    reveal_strlit("LFE");
    reveal_strlit("RC");
    reveal_strlit("MONO");
    reveal_strlit("");
    let left = seq!["FL"@, "FLC"@, "FRONT-LEFT"@, "SL"@, "SIDE-LEFT"@, "RL"@, "REAR-LEFT"@];
    let right = seq!["FR"@, "FRC"@, "FRONT-RIGHT"@, "SR"@, "SIDE-RIGHT"@, "RR"@, "REAR-RIGHT"@];
    let centre = seq!["FC"@, "LFE"@, "RC"@, "MONO"@];
    match p.channel {
        Some(text) => {
            let c = upper(text@);
            assert(left.contains(c) == is_left_name(c)) by {
                assert(left[0] == "FL"@ && left[1] == "FLC"@ && left[2] == "FRONT-LEFT"@);
                assert(left[3] == "SL"@ && left[4] == "SIDE-LEFT"@ && left[5] == "RL"@);
                assert(left[6] == "REAR-LEFT"@);
            }
            assert(right.contains(c) == is_right_name(c)) by {
                assert(right[0] == "FR"@ && right[1] == "FRC"@ && right[2] == "FRONT-RIGHT"@);
                assert(right[3] == "SR"@ && right[4] == "SIDE-RIGHT"@ && right[5] == "RR"@);
                assert(right[6] == "REAR-RIGHT"@);
            }
            assert(centre.contains(c) == is_centre_name(c)) by {
                assert(centre[0] == "FC"@ && centre[1] == "LFE"@);
                assert(centre[2] == "RC"@ && centre[3] == "MONO"@);
            }
            assert(is_left_name(c) ==> (c.len() <= 3 && c[1] == 'L') || c.len() == 9 || (c.len()
                == 10 && c[0] == 'F'));
            assert(is_right_name(c) ==> (c.len() <= 3 && c[1] == 'R') || c.len() == 11 || (c.len()
                == 10 && c[0] != 'F'));
            assert(is_centre_name(c) ==> (c.len() <= 3 && c[1] != 'L' && c[1] != 'R') || c.len()
                == 4);
        },
        None => {
            assert(upper(""@).len() == 0);
        },
    }
}

/// An output among the first `n` is paired with each of its targets.
proof fn lemma_pairs_of(
    outputs: Seq<PortRecord>,
    inputs: Seq<PortRecord>,
    n: int,
    i: int,
    q: PortRecord,
)
    requires
        0 <= i < n <= outputs.len(),
        targets(outputs, inputs, i).contains(q),
    ensures
        pairs(outputs, inputs, n).contains((outputs[i], q)),
    decreases n,
{
    let head = pairs(outputs, inputs, n - 1);
    let all = pairs(outputs, inputs, n);
    if i == n - 1 {
        let j = targets(outputs, inputs, i).index_of(q);
        assert(all[head.len() + j] == (outputs[i], q));
    } else {
        lemma_pairs_of(outputs, inputs, n - 1, i, q);
        let k = head.index_of((outputs[i], q));
        assert(all[k] == (outputs[i], q));
    }
}

/// A pair joins one of the first `n` outputs to one of its targets.
proof fn lemma_pair_source(
    outputs: Seq<PortRecord>,
    inputs: Seq<PortRecord>,
    n: int,
    k: int,
) -> (i: int)
    requires
        0 <= n <= outputs.len(),
        0 <= k < pairs(outputs, inputs, n).len(),
    ensures
        0 <= i < n,
        pairs(outputs, inputs, n)[k].0 == outputs[i],
        targets(outputs, inputs, i).contains(pairs(outputs, inputs, n)[k].1),
    decreases n,
{
    if n <= 0 {
        0
    } else {
        let head = pairs(outputs, inputs, n - 1);
        if k < head.len() {
            lemma_pair_source(outputs, inputs, n - 1, k)
        } else {
            let t = targets(outputs, inputs, n - 1);
            assert(pairs(outputs, inputs, n)[k].1 == t[k - head.len()]);
            n - 1
        }
    }
}

/// An output of the centre, the bass or one that plays alone for both sides is
/// linked to every left input and to every right input, whatever the other
/// outputs and inputs are.
pub proof fn the_centre_reaches_both_sides(
    outputs: Seq<PortRecord>,
    inputs: Seq<PortRecord>,
    i: int,
    j: int,
)
    requires
        0 <= i < outputs.len(),
        0 <= j < inputs.len(),
        called_one_of(outputs[i], seq!["FC"@, "LFE"@, "RC"@, "MONO"@]),
        called_one_of(
            inputs[j],
            seq![
                "FL"@,
                "FLC"@,
                "FRONT-LEFT"@,
                "SL"@,
                "SIDE-LEFT"@,
                "RL"@,
                "REAR-LEFT"@,
            ],
        ) || called_one_of(
            inputs[j],
            seq![
                "FR"@,
                "FRC"@,
                "FRONT-RIGHT"@,
                "SR"@,
                "SIDE-RIGHT"@,
                "RR"@,
                "REAR-RIGHT"@,
            ],
        ),
    ensures
        mapping(outputs, inputs).contains((outputs[i], inputs[j])),
{
    channel_names_tell_the_side(outputs[i]);
    channel_names_tell_the_side(inputs[j]);
    let side = port_role(inputs[j]);
    assert(plays(side)(inputs[j]));
    inputs.lemma_filter_contains(plays(side), j);
    let left = inputs.filter(plays(ChannelRole::Left));
    let right = inputs.filter(plays(ChannelRole::Right));
    if side == ChannelRole::Left {
        let m = left.index_of(inputs[j]);
        assert((left + right)[m] == inputs[j]);
    } else {
        let m = right.index_of(inputs[j]);
        assert((left + right)[left.len() + m] == inputs[j]);
    }
    lemma_pairs_of(outputs, inputs, outputs.len() as int, i, inputs[j]);
}

/// A left output is linked to every left input, and a right output to every
/// right input.
pub proof fn a_side_reaches_all_of_its_side(
    outputs: Seq<PortRecord>,
    inputs: Seq<PortRecord>,
    i: int,
    j: int,
)
    requires
        0 <= i < outputs.len(),
        0 <= j < inputs.len(),
        ({
            let left = seq![
                "FL"@,
                "FLC"@,
                "FRONT-LEFT"@,
                "SL"@,
                "SIDE-LEFT"@,
                "RL"@,
                "REAR-LEFT"@,
            ];
            let right = seq![
                "FR"@,
                "FRC"@,
                "FRONT-RIGHT"@,
                "SR"@,
                "SIDE-RIGHT"@,
                "RR"@,
                "REAR-RIGHT"@,
            ];
            ||| called_one_of(outputs[i], left) && called_one_of(inputs[j], left)
            ||| called_one_of(outputs[i], right) && called_one_of(inputs[j], right)
        }),
    ensures
        mapping(outputs, inputs).contains((outputs[i], inputs[j])),
{
    channel_names_tell_the_side(outputs[i]);
    channel_names_tell_the_side(inputs[j]);
    let side = port_role(inputs[j]);
    assert(plays(side)(inputs[j]));
    inputs.lemma_filter_contains(plays(side), j);
    lemma_pairs_of(outputs, inputs, outputs.len() as int, i, inputs[j]);
}

/// A left output is linked to nothing but left inputs where there is one, a
/// right output to nothing but right inputs, and an output of the centre to
/// nothing but the inputs of the two sides. Where no input plays a side, the
/// centre is linked to all of them.
pub proof fn a_side_is_kept_where_there_is_one(
    outputs: Seq<PortRecord>,
    inputs: Seq<PortRecord>,
    k: int,
    j: int,
)
    requires
        0 <= k < mapping(outputs, inputs).len(),
        0 <= j < inputs.len(),
    ensures
        ({
            let (output, input) = mapping(outputs, inputs)[k];
            let left = seq![
                "FL"@,
                "FLC"@,
                "FRONT-LEFT"@,
                "SL"@,
                "SIDE-LEFT"@,
                "RL"@,
                "REAR-LEFT"@,
            ];
            let right = seq![
                "FR"@,
                "FRC"@,
                "FRONT-RIGHT"@,
                "SR"@,
                "SIDE-RIGHT"@,
                "RR"@,
                "REAR-RIGHT"@,
            ];
            let centre = seq!["FC"@, "LFE"@, "RC"@, "MONO"@];
            &&& called_one_of(output, left) && called_one_of(inputs[j], left) ==> called_one_of(
                input,
                left,
            )
            &&& called_one_of(output, right) && called_one_of(inputs[j], right)
                ==> called_one_of(input, right)
            &&& called_one_of(output, centre) && (called_one_of(inputs[j], left)
                || called_one_of(inputs[j], right)) ==> called_one_of(input, left)
                || called_one_of(input, right)
            &&& called_one_of(output, centre) && (forall|m: int|
                0 <= m < inputs.len() ==> !called_one_of(#[trigger] inputs[m], left)
                    && !called_one_of(inputs[m], right)) ==> mapping(outputs, inputs).contains(
                (output, inputs[j]),
            )
        }),
{
    let (output, input) = mapping(outputs, inputs)[k];
    let i = lemma_pair_source(outputs, inputs, outputs.len() as int, k);
    let t = targets(outputs, inputs, i);
    let left = inputs.filter(plays(ChannelRole::Left));
    let right = inputs.filter(plays(ChannelRole::Right));
    assert forall|p: PortRecord| left.contains(p) implies port_role(p) == ChannelRole::Left by {
        inputs.lemma_filter_contains_rev(plays(ChannelRole::Left), p);
        assert(plays(ChannelRole::Left)(p));
    }
    assert forall|p: PortRecord| right.contains(p) implies port_role(p) == ChannelRole::Right by {
        inputs.lemma_filter_contains_rev(plays(ChannelRole::Right), p);
        assert(plays(ChannelRole::Right)(p));
    }
    channel_names_tell_the_side(output);
    channel_names_tell_the_side(input);
    channel_names_tell_the_side(inputs[j]);
    let side = port_role(inputs[j]);
    assert(plays(side)(inputs[j]));
    inputs.lemma_filter_contains(plays(side), j);
    if port_role(output) == ChannelRole::Both {
        if left.len() > 0 || right.len() > 0 {
            let m = t.index_of(input);
            if m < left.len() {
                assert(left.contains(left[m]));
            } else {
                assert(right.contains(right[m - left.len()]));
            }
            let p = if left.len() > 0 {
                left[0]
            } else {
                right[0]
            };
            assert(inputs.contains(p)) by {
                if left.len() > 0 {
                    assert(left.contains(p));
                    inputs.lemma_filter_contains_rev(plays(ChannelRole::Left), p);
                } else {
                    assert(right.contains(p));
                    inputs.lemma_filter_contains_rev(plays(ChannelRole::Right), p);
                }
            }
            assert(port_role(p) == ChannelRole::Left || port_role(p) == ChannelRole::Right) by {
                if left.len() > 0 {
                    assert(left.contains(p));
                } else {
                    assert(right.contains(p));
                }
            }
            let m = inputs.index_of(p);
            channel_names_tell_the_side(inputs[m]);
        } else {
            assert(t.contains(inputs[j]));
            lemma_pairs_of(outputs, inputs, outputs.len() as int, i, inputs[j]);
        }
    }
}

/// Where there is but one output and its channel bears none of the names, it is
/// linked to every input.
pub proof fn a_lone_unplaced_output_reaches_everything(
    output: PortRecord,
    inputs: Seq<PortRecord>,
    j: int,
)
    requires
        0 <= j < inputs.len(),
        port_role(output) == ChannelRole::Unknown,
    ensures
        mapping(seq![output], inputs).contains((output, inputs[j])),
{
    let outputs = seq![output];
    assert(targets(outputs, inputs, 0).contains(inputs[j]));
    lemma_pairs_of(outputs, inputs, 1, 0, inputs[j]);
}

/// An output that no channel name places, among others or on a side without an
/// input of its own, is linked to one input: to the first that bears its port
/// index; where none does, to the one at its own position; and where there is
/// none, to the first for a left output and to the last for any other.
pub proof fn an_unplaced_output_reaches_its_counterpart(
    outputs: Seq<PortRecord>,
    inputs: Seq<PortRecord>,
    i: int,
    j: int,
)
    requires
        0 <= i < outputs.len(),
        0 <= j < inputs.len(),
        ({
            ||| port_role(outputs[i]) == ChannelRole::Unknown && outputs.len() > 1
            ||| (port_role(outputs[i]) == ChannelRole::Left || port_role(outputs[i])
                == ChannelRole::Right) && forall|m: int|
                0 <= m < inputs.len() ==> port_role(#[trigger] inputs[m]) != port_role(outputs[i])
        }),
        ({
            let index = |p: PortRecord| opt_text(p.port_index);
            let alike = |m: int| index(outputs[i]) is Some && index(inputs[m]) == index(outputs[i]);
            ||| alike(j) && forall|m: int| 0 <= m < j ==> !#[trigger] alike(m)
            ||| (forall|m: int| 0 <= m < inputs.len() ==> !#[trigger] alike(m)) && j == (if i
                < inputs.len() {
                i
            } else if port_role(outputs[i]) == ChannelRole::Left {
                0
            } else {
                inputs.len() - 1
            })
        }),
    ensures
        mapping(outputs, inputs).contains((outputs[i], inputs[j])),
        targets(outputs, inputs, i).len() == 1,
{
    let index = |p: PortRecord| opt_text(p.port_index);
    let alike = |m: int| index(outputs[i]) is Some && index(inputs[m]) == index(outputs[i]);
    assert forall|m: int| 0 <= m < inputs.len() implies #[trigger] alike(m) == same_index(
        outputs[i],
        inputs[m],
    ) by {}
    lemma_first_twin(outputs[i], inputs, j);
    let side = port_role(outputs[i]);
    let own = inputs.filter(plays(side));
    if side != ChannelRole::Unknown && own.len() > 0 {
        assert(own.contains(own[0]));
        inputs.lemma_filter_contains_rev(plays(side), own[0]);
        assert(plays(side)(own[0]));
        let m = inputs.index_of(own[0]);
        assert(port_role(inputs[m]) == side);
    }
    assert forall|m: int| 0 <= m < inputs.len() implies !(twin(outputs[i], inputs) is None
        && same_index(outputs[i], #[trigger] inputs[m])) by {
        lemma_no_twin(outputs[i], inputs, m);
    }
    if alike(j) && forall|m: int| 0 <= m < j ==> !#[trigger] alike(m) {
        assert forall|m: int| 0 <= m < j implies !same_index(outputs[i], #[trigger] inputs[m]) by {
            assert(!alike(m));
        }
        assert(twin(outputs[i], inputs) == Some(inputs[j]));
    } else {
        assert(twin(outputs[i], inputs) is None) by {
            lemma_twin(outputs[i], inputs);
            if let Some(p) = twin(outputs[i], inputs) {
                lemma_twin_alike(outputs[i], inputs);
                let m = inputs.index_of(p);
                assert(alike(m));
            }
        }
    }
    assert(targets(outputs, inputs, i) =~= seq![inputs[j]]);
    assert(targets(outputs, inputs, i)[0] == inputs[j]);
    assert(targets(outputs, inputs, i).contains(inputs[j]));
    lemma_pairs_of(outputs, inputs, outputs.len() as int, i, inputs[j]);
}

proof fn lemma_first_twin(output: PortRecord, inputs: Seq<PortRecord>, j: int)
    requires
        0 <= j < inputs.len(),
    ensures
        same_index(output, inputs[j]) && (forall|m: int|
            0 <= m < j ==> !same_index(output, #[trigger] inputs[m])) ==> twin(output, inputs)
            == Some(inputs[j]),
    decreases inputs.len(),
{
    if same_index(output, inputs[j]) && (forall|m: int|
        0 <= m < j ==> !same_index(output, #[trigger] inputs[m])) && j > 0 {
        assert(!same_index(output, inputs[0]));
        let rest = inputs.drop_first();
        assert forall|m: int| 0 <= m < j - 1 implies !same_index(output, #[trigger] rest[m]) by {
            assert(rest[m] == inputs[m + 1]);
        }
        lemma_first_twin(output, rest, j - 1);
    }
}

proof fn lemma_no_twin(output: PortRecord, inputs: Seq<PortRecord>, m: int)
    requires
        0 <= m < inputs.len(),
    ensures
        twin(output, inputs) is None ==> !same_index(output, inputs[m]),
    decreases inputs.len(),
{
    if m > 0 {
        assert(inputs.drop_first()[m - 1] == inputs[m]);
        lemma_no_twin(output, inputs.drop_first(), m - 1);
    }
}

proof fn lemma_twin_alike(output: PortRecord, inputs: Seq<PortRecord>)
    ensures
        twin(output, inputs) matches Some(p) ==> same_index(output, p),
    decreases inputs.len(),
{
    if inputs.len() > 0 {
        lemma_twin_alike(output, inputs.drop_first());
    }
}

/// The pairs stand output by output: the pairs of the outputs that come first
/// come first, and an output is linked to the same inputs whatever is appended
/// to the outputs, so long as there were others before.
pub proof fn pairs_stand_output_by_output(
    outputs: Seq<PortRecord>,
    more: Seq<PortRecord>,
    inputs: Seq<PortRecord>,
)
    requires
        outputs.len() > 1,
    ensures
        mapping(outputs, inputs).is_prefix_of(mapping(outputs + more, inputs)),
{
    let all = outputs + more;
    if inputs.len() > 0 {
        lemma_pairs_prefix(outputs, all, inputs, outputs.len() as int);
        lemma_pairs_grow(all, inputs, outputs.len() as int, all.len() as int);
    }
}

proof fn lemma_pairs_prefix(
    outputs: Seq<PortRecord>,
    all: Seq<PortRecord>,
    inputs: Seq<PortRecord>,
    n: int,
)
    requires
        1 < outputs.len() <= all.len(),
        0 <= n <= outputs.len(),
        forall|i: int| 0 <= i < outputs.len() ==> #[trigger] all[i] == outputs[i],
    ensures
        pairs(outputs, inputs, n) == pairs(all, inputs, n),
    decreases n,
{
    if n > 0 {
        lemma_pairs_prefix(outputs, all, inputs, n - 1);
        assert(all[n - 1] == outputs[n - 1]);
        assert(targets(outputs, inputs, n - 1) == targets(all, inputs, n - 1));
    }
}

proof fn lemma_pairs_grow(outputs: Seq<PortRecord>, inputs: Seq<PortRecord>, m: int, n: int)
    requires
        0 <= m <= n <= outputs.len(),
    ensures
        pairs(outputs, inputs, m).is_prefix_of(pairs(outputs, inputs, n)),
    decreases n,
{
    if m < n {
        lemma_pairs_grow(outputs, inputs, m, n - 1);
    }
}

/// Ids that come later change nothing about those that came before: each id
/// stands where it first occurred.
pub proof fn distinct_ids_stand_where_they_first_occurred(ids: Seq<u32>, more: Seq<u32>)
    ensures
        distinct(ids).is_prefix_of(distinct(ids + more)),
    decreases more.len(),
{
    if more.len() == 0 {
        assert(ids + more =~= ids);
    } else {
        distinct_ids_stand_where_they_first_occurred(ids, more.drop_last());
        assert((ids + more).drop_last() =~= ids + more.drop_last());
    }
}

/// Mapping ports links every output of the centre to every input of either side,
/// every left output to every left input and every right output to every right
/// input, and gives each output a link where there is an input at all.
pub proof fn ports_are_mapped_by_their_channels(
    outputs: Vec<PortRecord>,
    inputs: Vec<PortRecord>,
    mapped: Vec<(PortRecord, PortRecord)>,
    i: int,
    j: int,
)
    requires
        call_ensures(map_ports, (&outputs, &inputs), mapped),
        0 <= i < outputs@.len(),
        0 <= j < inputs@.len(),
    ensures
        ({
            let left = seq![
                "FL"@,
                "FLC"@,
                "FRONT-LEFT"@,
                "SL"@,
                "SIDE-LEFT"@,
                "RL"@,
                "REAR-LEFT"@,
            ];
            let right = seq![
                "FR"@,
                "FRC"@,
                "FRONT-RIGHT"@,
                "SR"@,
                "SIDE-RIGHT"@,
                "RR"@,
                "REAR-RIGHT"@,
            ];
            let centre = seq!["FC"@, "LFE"@, "RC"@, "MONO"@];
            let (o, p) = (outputs@[i], inputs@[j]);
            &&& called_one_of(o, centre) && (called_one_of(p, left) || called_one_of(p, right))
                ==> mapped@.contains((o, p))
            &&& called_one_of(o, left) && called_one_of(p, left) ==> mapped@.contains((o, p))
            &&& called_one_of(o, right) && called_one_of(p, right) ==> mapped@.contains((o, p))
            &&& exists|k: int| 0 <= k < mapped@.len() && (#[trigger] mapped@[k]).0 == o
        }),
{
    let left = seq!["FL"@, "FLC"@, "FRONT-LEFT"@, "SL"@, "SIDE-LEFT"@, "RL"@, "REAR-LEFT"@];
    let right = seq!["FR"@, "FRC"@, "FRONT-RIGHT"@, "SR"@, "SIDE-RIGHT"@, "RR"@, "REAR-RIGHT"@];
    let centre = seq!["FC"@, "LFE"@, "RC"@, "MONO"@];
    let (o, p) = (outputs@[i], inputs@[j]);
    if called_one_of(o, centre) && (called_one_of(p, left) || called_one_of(p, right)) {
        the_centre_reaches_both_sides(outputs@, inputs@, i, j);
    }
    if called_one_of(o, left) && called_one_of(p, left) || called_one_of(o, right)
        && called_one_of(p, right) {
        a_side_reaches_all_of_its_side(outputs@, inputs@, i, j);
    }
    mapping_links_every_output(outputs@, inputs@, i);
    let k = choose|k: int|
        0 <= k < mapping(outputs@, inputs@).len() && (#[trigger] mapping(outputs@, inputs@)[k]).0
            == o;
    assert(mapped@[k].0 == o);
}

/// Two ports have the same index exactly if both have one and it is the same
/// text.
pub proof fn port_indices_are_compared_as_texts(
    a: PortRecord,
    b: PortRecord,
    s: String,
    t: String,
    r: bool,
)
    requires
        call_ensures(same_port_index, (&a, &b), r),
    ensures
        a.port_index is None || b.port_index is None ==> !r,
        a.port_index == Some(s) && b.port_index == Some(t) ==> r == (s@ == t@),
{
}

/// Where no output and no input is given twice, no pair is.
pub proof fn no_pair_is_mapped_twice(outputs: Seq<PortRecord>, inputs: Seq<PortRecord>)
    requires
        outputs.no_duplicates(),
        inputs.no_duplicates(),
    ensures
        mapping(outputs, inputs).no_duplicates(),
{
    if inputs.len() > 0 {
        lemma_pairs_differ(outputs, inputs, outputs.len() as int);
    }
}

proof fn lemma_pairs_differ(outputs: Seq<PortRecord>, inputs: Seq<PortRecord>, n: int)
    requires
        outputs.no_duplicates(),
        inputs.no_duplicates(),
        0 <= n <= outputs.len(),
    ensures
        pairs(outputs, inputs, n).no_duplicates(),
    decreases n,
{
    if n > 0 {
        let head = pairs(outputs, inputs, n - 1);
        let all = pairs(outputs, inputs, n);
        lemma_pairs_differ(outputs, inputs, n - 1);
        lemma_targets_differ(outputs, inputs, n - 1);
        let t = targets(outputs, inputs, n - 1);
        assert forall|a: int, b: int| 0 <= a < b < all.len() implies all[a] != all[b] by {
            if b < head.len() {
                assert(head[a] != head[b]);
            } else if a < head.len() {
                let i = lemma_pair_source(outputs, inputs, n - 1, a);
                assert(all[a] == head[a]);
                assert(all[b].0 == outputs[n - 1]);
                assert(outputs[i] != outputs[n - 1]);
            } else {
                assert(all[a].1 == t[a - head.len()]);
                assert(all[b].1 == t[b - head.len()]);
            }
        }
    }
}

proof fn lemma_targets_differ(outputs: Seq<PortRecord>, inputs: Seq<PortRecord>, i: int)
    requires
        inputs.no_duplicates(),
    ensures
        targets(outputs, inputs, i).no_duplicates(),
{
    let left = inputs.filter(plays(ChannelRole::Left));
    let right = inputs.filter(plays(ChannelRole::Right));
    lemma_kept_differ(inputs, plays(ChannelRole::Left));
    lemma_kept_differ(inputs, plays(ChannelRole::Right));
    assert forall|a: int, b: int| 0 <= a < left.len() && 0 <= b < right.len() implies left[a]
        != right[b] by {
        inputs.lemma_filter_pred(plays(ChannelRole::Left), a);
        inputs.lemma_filter_pred(plays(ChannelRole::Right), b);
    }
    let both = left + right;
    assert forall|a: int, b: int| 0 <= a < b < both.len() implies both[a] != both[b] by {
        if b < left.len() {
            assert(left[a] != left[b]);
        } else if a >= left.len() {
            assert(right[a - left.len()] != right[b - left.len()]);
        }
    }
}

proof fn lemma_kept_differ(s: Seq<PortRecord>, wanted: spec_fn(PortRecord) -> bool)
    requires
        s.no_duplicates(),
    ensures
        s.filter(wanted).no_duplicates(),
    decreases s.len(),
{
    if s.len() > 0 {
        let head = s.drop_last();
        lemma_kept_differ(head, wanted);
        head.lemma_filter_push(s.last(), wanted);
        assert(head.push(s.last()) =~= s);
        let before = head.filter(wanted);
        let all = s.filter(wanted);
        assert forall|a: int, b: int| 0 <= a < b < all.len() implies all[a] != all[b] by {
            if b < before.len() {
                assert(before[a] != before[b]);
            } else {
                assert(before.contains(before[a]));
                head.lemma_filter_contains_rev(wanted, before[a]);
                let k = head.index_of(before[a]);
                assert(s[k] != s[s.len() - 1]);
            }
        }
    } else {
        assert(s.filter(wanted).len() == 0) by {
            reveal(Seq::filter);
        }
    }
}

/// An output of the centre is linked to the left inputs before the right ones.
pub proof fn the_left_comes_first(output: PortRecord, inputs: Seq<PortRecord>, a: int, b: int)
    requires
        port_role(output) == ChannelRole::Both,
        0 <= a < b < mapping(seq![output], inputs).len(),
        port_role(mapping(seq![output], inputs)[b].1) == ChannelRole::Left,
    ensures
        port_role(mapping(seq![output], inputs)[a].1) == ChannelRole::Left,
{
    let outputs = seq![output];
    let left = inputs.filter(plays(ChannelRole::Left));
    let right = inputs.filter(plays(ChannelRole::Right));
    let t = targets(outputs, inputs, 0);
    reveal_with_fuel(pairs, 2);
    assert(mapping(outputs, inputs) =~= pair_up(output, t));
    if left.len() > 0 || right.len() > 0 {
        if b >= left.len() {
            inputs.lemma_filter_pred(plays(ChannelRole::Right), b - left.len());
            assert(t[b] == right[b - left.len()]);
        }
        inputs.lemma_filter_pred(plays(ChannelRole::Left), a);
        assert(t[a] == left[a]);
    } else {
        assert(t[b] == inputs[b]);
        assert(plays(ChannelRole::Left)(inputs[b]));
        inputs.lemma_filter_contains(plays(ChannelRole::Left), b);
    }
}

} // verus!
