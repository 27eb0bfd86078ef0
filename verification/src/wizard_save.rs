//! Saving what the offset wizard and the executable scan found: the INI
//! entries to write, in order, and the summary shown once the caller has
//! written them.
use vstd::prelude::*;
use crate::offsets::PrimaryOffsets;
use crate::text::{chars_of, dec_chars, dec_seq, hex_chars, hex_seq, push_all, string_of};
use crate::wizard::WizardResults;

verus! {

/// One INI entry to write.  A `reported` entry appears in the summary.
pub struct IniWrite {
    pub section: String,
    pub key: String,
    pub value: String,
    pub reported: bool,
}

/// An entry as plain text: section, key, value, reported.
pub type WriteModel = (Seq<char>, Seq<char>, Seq<char>, bool);

pub open spec fn write_model(w: IniWrite) -> WriteModel {
    (w.section@, w.key@, w.value@, w.reported)
}

pub open spec fn plan_of(v: Seq<IniWrite>) -> Seq<WriteModel> {
    v.map_values(|w: IniWrite| write_model(w))
}

/// `0x` and the lowercase hex digits of `v`.
pub open spec fn hex_value(v: nat) -> Seq<char> {
    "0x"@ + hex_seq(v, false)
}

/// A write of `v` in hex under `key`, when `v` is known.
pub open spec fn opt_write(section: Seq<char>, key: Seq<char>, v: Option<usize>) -> Seq<WriteModel> {
    match v {
        Some(x) => seq![(section, key, hex_value(x as nat), true)],
        None => Seq::empty(),
    }
}

/// A write of the address `v` under `key` in `[Memory Offsets]`, unless 0.
pub open spec fn mem_write(key: Seq<char>, v: u64) -> Seq<WriteModel> {
    if v != 0 {
        seq![("Memory Offsets"@, key, hex_value(v as nat), true)]
    } else {
        Seq::empty()
    }
}

/// The `[File Info]` writes: each pair with a nonempty value.
pub open spec fn file_info_writes(fi: Seq<(String, String)>) -> Seq<WriteModel>
    decreases fi.len(),
{
    if fi.len() == 0 {
        Seq::empty()
    } else {
        let rest = file_info_writes(fi.drop_last());
        if fi.last().1@.len() > 0 {
            rest.push(("File Info"@, fi.last().0@, fi.last().1@, true))
        } else {
            rest
        }
    }
}

/// The `[SpawnInfo Offsets]` writes of the scan: each nonzero offset.
pub open spec fn secondary_writes(s: Seq<(String, u64)>) -> Seq<WriteModel>
    decreases s.len(),
{
    if s.len() == 0 {
        Seq::empty()
    } else {
        let rest = secondary_writes(s.drop_last());
        if s.last().1 != 0 {
            rest.push(("SpawnInfo Offsets"@, s.last().0@, hex_value(s.last().1 as nat), true))
        } else {
            rest
        }
    }
}

/// The fixed `[WorldInfo Offsets]` writes.
pub open spec fn world_writes() -> Seq<WriteModel> {
    let w = "WorldInfo Offsets"@;
    seq![
        (w, "WorldHourOffset"@, "8"@, true),
        (w, "WorldMinuteOffset"@, "9"@, true),
        (w, "WorldDayOffset"@, "10"@, true),
        (w, "WorldMonthOffset"@, "11"@, true),
        (w, "WorldYearOffset"@, "12"@, true),
    ]
}

/// The spawn structure offsets the wizard found; the name offsets only
/// when the user confirmed the name they rest on.
pub open spec fn spawn_writes(r: WizardResults) -> Seq<WriteModel> {
    spawn_links(r) + spawn_names(r) + spawn_fields(r)
}

pub open spec fn spawn_links(r: WizardResults) -> Seq<WriteModel> {
    let s = "SpawnInfo Offsets"@;
    opt_write(s, "NextOffset"@, r.next) + opt_write(s, "PrevOffset"@, r.prev)
}

pub open spec fn spawn_names(r: WizardResults) -> Seq<WriteModel> {
    let s = "SpawnInfo Offsets"@;
    if r.name_confirmed {
        opt_write(s, "NameOffset"@, r.name) + opt_write(s, "LastnameOffset"@, r.last_name)
    } else {
        Seq::empty()
    }
}

pub open spec fn spawn_fields(r: WizardResults) -> Seq<WriteModel> {
    let s = "SpawnInfo Offsets"@;
    opt_write(s, "XOffset"@, r.x) + opt_write(s, "YOffset"@, r.y) + opt_write(s, "ZOffset"@, r.z)
        + opt_write(s, "SpeedOffset"@, r.speed) + opt_write(s, "HeadingOffset"@, r.heading) + opt_write(
        s,
        "HideOffset"@,
        r.hidden,
    ) + opt_write(s, "OwnerIDOffset"@, r.owner)
}

/// The ground item offsets the wizard found.
pub open spec fn item_writes(r: WizardResults) -> Seq<WriteModel> {
    item_links(r) + item_fields(r)
}

pub open spec fn item_links(r: WizardResults) -> Seq<WriteModel> {
    let g = "GroundItem Offsets"@;
    opt_write(g, "PrevOffset"@, r.item_prev) + opt_write(g, "NextOffset"@, r.item_next) + opt_write(
        g,
        "IdOffset"@,
        r.item_id,
    ) + opt_write(g, "DropIdOffset"@, r.item_drop_id)
}

pub open spec fn item_fields(r: WizardResults) -> Seq<WriteModel> {
    let g = "GroundItem Offsets"@;
    opt_write(g, "XOffset"@, r.item_x) + opt_write(g, "YOffset"@, r.item_y) + opt_write(g, "ZOffset"@, r.item_z)
        + opt_write(g, "NameOffset"@, r.item_name)
}

/// The port to keep: the one the INI file has, 5555 when it has none.
pub open spec fn kept_port(existing: u16) -> u16 {
    if existing != 0 {
        existing
    } else {
        5555
    }
}

/// Every write, in order: file facts, the port (not reported), the
/// addresses, the fixed world offsets, the scan's structure offsets, the
/// wizard's spawn offsets and its ground item offsets.
pub open spec fn wizard_plan(
    r: WizardResults,
    primary: PrimaryOffsets,
    secondary: Seq<(String, u64)>,
    file_info: Seq<(String, String)>,
    existing_port: u16,
) -> Seq<WriteModel> {
    file_info_writes(file_info) + seq![("Port"@, "Port"@, dec_seq(kept_port(existing_port) as nat), false)]
        + mem_write("ZoneAddr"@, primary.zone_name) + mem_write("SpawnHeaderAddr"@, primary.spawn_list)
        + mem_write("CharInfo"@, primary.self_addr) + mem_write("ItemsAddr"@, primary.ground) + mem_write(
        "TargetAddr"@,
        primary.target,
    ) + mem_write("WorldAddr"@, primary.world) + world_writes() + secondary_writes(secondary)
        + spawn_writes(r) + item_writes(r)
}

fn str_of(s: &str) -> (r: String)
    ensures
        r@ == s@,
{
    string_of(chars_of(s).as_slice())
}

fn hex_string(v: u64) -> (r: String)
    ensures
        r@ == hex_value(v as nat),
{
    let mut c = chars_of("0x");
    let h = hex_chars(v, false);
    push_all(&mut c, &h);
    string_of(c.as_slice())
}

fn push_write(plan: &mut Vec<IniWrite>, section: &str, key: &str, value: String, reported: bool)
    ensures
        plan_of(final(plan)@) == plan_of(old(plan)@).push((section@, key@, value@, reported)),
{
    plan.push(IniWrite { section: str_of(section), key: str_of(key), value, reported });
    assert(plan_of(plan@) =~= plan_of(old(plan)@).push((section@, key@, value@, reported)));
}

fn push_opt(plan: &mut Vec<IniWrite>, section: &str, key: &str, v: Option<usize>)
    ensures
        plan_of(final(plan)@) == plan_of(old(plan)@) + opt_write(section@, key@, v),
{
    match v {
        Some(x) => {
            push_write(plan, section, key, hex_string(x as u64), true);
            assert(plan_of(plan@) =~= plan_of(old(plan)@) + opt_write(section@, key@, v));
        },
        None => {
            assert(plan_of(plan@) =~= plan_of(old(plan)@) + opt_write(section@, key@, v));
        },
    }
}

fn push_mem(plan: &mut Vec<IniWrite>, key: &str, v: u64)
    ensures
        plan_of(final(plan)@) == plan_of(old(plan)@) + mem_write(key@, v),
{
    if v != 0 {
        push_write(plan, "Memory Offsets", key, hex_string(v), true);
    }
    assert(plan_of(plan@) =~= plan_of(old(plan)@) + mem_write(key@, v));
}

fn clone_text(s: &String) -> (r: String)
    ensures
        r@ == s@,
{
    string_of(chars_of(s.as_str()).as_slice())
}

fn push_owned(plan: &mut Vec<IniWrite>, section: &str, key: String, value: String)
    ensures
        plan_of(final(plan)@) == plan_of(old(plan)@).push((section@, key@, value@, true)),
{
    plan.push(IniWrite { section: str_of(section), key, value, reported: true });
    assert(plan_of(plan@) =~= plan_of(old(plan)@).push((section@, key@, value@, true)));
}

fn push_file_info(plan: &mut Vec<IniWrite>, file_info: &Vec<(String, String)>)
    ensures
        plan_of(final(plan)@) == plan_of(old(plan)@) + file_info_writes(file_info@),
{
    let ghost p0 = plan_of(plan@);
    let mut i: usize = 0;
    assert(file_info@.take(0) =~= Seq::<(String, String)>::empty());
    assert(p0 + file_info_writes(file_info@.take(0)) =~= p0);
    while i < file_info.len()
        invariant
            i <= file_info@.len(),
            plan_of(plan@) == p0 + file_info_writes(file_info@.take(i as int)),
        decreases file_info@.len() - i,
    {
        assert(file_info@.take(i + 1).drop_last() =~= file_info@.take(i as int));
        assert(file_info@.take(i + 1).last() == file_info@[i as int]);
        let v = chars_of(file_info[i].1.as_str());
        if v.len() > 0 {
            push_owned(plan, "File Info", clone_text(&file_info[i].0), clone_text(&file_info[i].1));
        }
        assert(plan_of(plan@) =~= p0 + file_info_writes(file_info@.take(i + 1)));
        i = i + 1;
    }
    assert(file_info@.take(i as int) =~= file_info@);
}

fn push_secondary(plan: &mut Vec<IniWrite>, secondary: &Vec<(String, u64)>)
    ensures
        plan_of(final(plan)@) == plan_of(old(plan)@) + secondary_writes(secondary@),
{
    let ghost p0 = plan_of(plan@);
    let mut j: usize = 0;
    assert(secondary@.take(0) =~= Seq::<(String, u64)>::empty());
    assert(p0 + secondary_writes(secondary@.take(0)) =~= p0);
    while j < secondary.len()
        invariant
            j <= secondary@.len(),
            plan_of(plan@) == p0 + secondary_writes(secondary@.take(j as int)),
        decreases secondary@.len() - j,
    {
        assert(secondary@.take(j + 1).drop_last() =~= secondary@.take(j as int));
        assert(secondary@.take(j + 1).last() == secondary@[j as int]);
        if secondary[j].1 != 0 {
            push_owned(plan, "SpawnInfo Offsets", clone_text(&secondary[j].0), hex_string(secondary[j].1));
        }
        assert(plan_of(plan@) =~= p0 + secondary_writes(secondary@.take(j + 1)));
        j = j + 1;
    }
    assert(secondary@.take(j as int) =~= secondary@);
}

#[verifier::rlimit(30)]
fn push_spawn(plan: &mut Vec<IniWrite>, results: &WizardResults)
    ensures
        plan_of(final(plan)@) == plan_of(old(plan)@) + spawn_writes(*results),
{
    let ghost p0 = plan_of(plan@);
    let s = "SpawnInfo Offsets";
    push_opt(plan, s, "NextOffset", results.next);
    push_opt(plan, s, "PrevOffset", results.prev);
    assert(plan_of(plan@) =~= p0 + spawn_links(*results));
    let ghost p1 = plan_of(plan@);
    if results.name_confirmed {
        push_opt(plan, s, "NameOffset", results.name);
        push_opt(plan, s, "LastnameOffset", results.last_name);
    }
    assert(plan_of(plan@) =~= p1 + spawn_names(*results));
    push_fields(plan, results);
    assert(plan_of(plan@) =~= p0 + spawn_writes(*results));
}

#[verifier::rlimit(30)]
fn push_fields(plan: &mut Vec<IniWrite>, results: &WizardResults)
    ensures
        plan_of(final(plan)@) == plan_of(old(plan)@) + spawn_fields(*results),
{
    let ghost p0 = plan_of(plan@);
    let s = "SpawnInfo Offsets";
    push_opt(plan, s, "XOffset", results.x);
    push_opt(plan, s, "YOffset", results.y);
    push_opt(plan, s, "ZOffset", results.z);
    push_opt(plan, s, "SpeedOffset", results.speed);
    push_opt(plan, s, "HeadingOffset", results.heading);
    push_opt(plan, s, "HideOffset", results.hidden);
    push_opt(plan, s, "OwnerIDOffset", results.owner);
    assert(plan_of(plan@) =~= p0 + spawn_fields(*results));
}

#[verifier::rlimit(30)]
fn push_items(plan: &mut Vec<IniWrite>, results: &WizardResults)
    ensures
        plan_of(final(plan)@) == plan_of(old(plan)@) + item_writes(*results),
{
    let ghost p0 = plan_of(plan@);
    let g = "GroundItem Offsets";
    push_opt(plan, g, "PrevOffset", results.item_prev);
    push_opt(plan, g, "NextOffset", results.item_next);
    push_opt(plan, g, "IdOffset", results.item_id);
    push_opt(plan, g, "DropIdOffset", results.item_drop_id);
    assert(plan_of(plan@) =~= p0 + item_links(*results));
    let ghost p1 = plan_of(plan@);
    push_opt(plan, g, "XOffset", results.item_x);
    push_opt(plan, g, "YOffset", results.item_y);
    push_opt(plan, g, "ZOffset", results.item_z);
    push_opt(plan, g, "NameOffset", results.item_name);
    assert(plan_of(plan@) =~= p1 + item_fields(*results));
    assert(plan_of(plan@) =~= p0 + item_writes(*results));
}

#[verifier::rlimit(30)]
fn push_world(plan: &mut Vec<IniWrite>)
    ensures
        plan_of(final(plan)@) == plan_of(old(plan)@) + world_writes(),
{
    let ghost p0 = plan_of(plan@);
    let w = "WorldInfo Offsets";
    push_write(plan, w, "WorldHourOffset", str_of("8"), true);
    push_write(plan, w, "WorldMinuteOffset", str_of("9"), true);
    push_write(plan, w, "WorldDayOffset", str_of("10"), true);
    push_write(plan, w, "WorldMonthOffset", str_of("11"), true);
    push_write(plan, w, "WorldYearOffset", str_of("12"), true);
    assert(plan_of(plan@) =~= p0 + world_writes());
}

#[verifier::rlimit(30)]
fn push_primary(plan: &mut Vec<IniWrite>, primary: &PrimaryOffsets)
    ensures
        plan_of(final(plan)@) == plan_of(old(plan)@) + mem_write("ZoneAddr"@, primary.zone_name)
            + mem_write("SpawnHeaderAddr"@, primary.spawn_list) + mem_write("CharInfo"@, primary.self_addr)
            + mem_write("ItemsAddr"@, primary.ground) + mem_write("TargetAddr"@, primary.target)
            + mem_write("WorldAddr"@, primary.world),
{
    push_mem(plan, "ZoneAddr", primary.zone_name);
    push_mem(plan, "SpawnHeaderAddr", primary.spawn_list);
    push_mem(plan, "CharInfo", primary.self_addr);
    push_mem(plan, "ItemsAddr", primary.ground);
    push_mem(plan, "TargetAddr", primary.target);
    push_mem(plan, "WorldAddr", primary.world);
}

/// The INI writes that save the wizard's and the scan's results (see
/// `wizard_plan`); `existing_port` is the port the INI file has (0 for
/// none).
pub fn wizard_writes(
    results: &WizardResults,
    primary: &PrimaryOffsets,
    secondary: &Vec<(String, u64)>,
    file_info: &Vec<(String, String)>,
    existing_port: u16,
) -> (plan: Vec<IniWrite>)
    ensures
        plan_of(plan@) == wizard_plan(*results, *primary, secondary@, file_info@, existing_port),
{
    let mut plan: Vec<IniWrite> = Vec::new();
    assert(plan_of(plan@) =~= Seq::<WriteModel>::empty());
    push_file_info(&mut plan, file_info);
    let port = if existing_port != 0 {
        existing_port
    } else {
        5555
    };
    push_write(&mut plan, "Port", "Port", string_of(dec_chars(port as u64).as_slice()), false);
    push_primary(&mut plan, primary);
    push_world(&mut plan);
    push_secondary(&mut plan, secondary);
    push_spawn(&mut plan, results);
    push_items(&mut plan, results);
    assert(plan_of(plan@) =~= wizard_plan(*results, *primary, secondary@, file_info@, existing_port));
    plan
}

/// How a reported write is listed: with its value when it was written,
/// by name when it failed.  File and world entries carry their section.
pub open spec fn written_text(w: WriteModel) -> Seq<char> {
    if w.0 == "File Info"@ {
        "File Info."@ + w.1 + " = "@ + w.2
    } else if w.0 == "WorldInfo Offsets"@ {
        "WorldInfo."@ + w.1 + " = "@ + w.2
    } else {
        w.1 + " = "@ + w.2
    }
}

pub open spec fn failed_text(w: WriteModel) -> Seq<char> {
    if w.0 == "File Info"@ {
        "File Info."@ + w.1
    } else if w.0 == "WorldInfo Offsets"@ {
        "WorldInfo."@ + w.1
    } else {
        w.1
    }
}

/// The summary lines of the reported writes that did (`ok`) or did not
/// succeed, in order.
pub open spec fn listed(plan: Seq<WriteModel>, oks: Seq<bool>, ok: bool) -> Seq<Seq<char>>
    decreases plan.len(),
{
    if plan.len() == 0 {
        Seq::empty()
    } else {
        let rest = listed(plan.drop_last(), oks.drop_last(), ok);
        let w = plan.last();
        if w.3 && oks.last() == ok {
            rest.push(if ok {
                written_text(w)
            } else {
                failed_text(w)
            })
        } else {
            rest
        }
    }
}

/// A titled list: `title (n):` then each entry indented, nothing when empty.
pub open spec fn block(title: Seq<char>, items: Seq<Seq<char>>) -> Seq<char> {
    if items.len() == 0 {
        Seq::empty()
    } else {
        title + " ("@ + dec_seq(items.len()) + "):\r\n"@ + indented(items)
    }
}

pub open spec fn indented(items: Seq<Seq<char>>) -> Seq<char>
    decreases items.len(),
{
    if items.len() == 0 {
        Seq::empty()
    } else {
        indented(items.drop_last()) + "  "@ + items.last() + "\r\n"@
    }
}

/// The summary after the writes of `plan` succeeded as `oks` says.
pub open spec fn summary_text(plan: Seq<WriteModel>, oks: Seq<bool>) -> Seq<char> {
    let w = listed(plan, oks, true);
    let f = listed(plan, oks, false);
    block("Written"@, w) + block("Write failed"@, f) + (if w.len() == 0 && f.len() == 0 {
        "Nothing to write (no fields discovered).\r\n"@
    } else {
        Seq::empty()
    })
}

fn is_section(w: &IniWrite, s: &str) -> (b: bool)
    ensures
        b == (w.section@ == s@),
{
    let a = chars_of(w.section.as_str());
    let c = chars_of(s);
    crate::text::chars_eq(&a, &c)
}

fn entry_text(w: &IniWrite, ok: bool) -> (r: Vec<char>)
    ensures
        r@ == (if ok {
            written_text(write_model(*w))
        } else {
            failed_text(write_model(*w))
        }),
{
    let mut r: Vec<char> = if is_section(w, "File Info") {
        chars_of("File Info.")
    } else if is_section(w, "WorldInfo Offsets") {
        chars_of("WorldInfo.")
    } else {
        Vec::new()
    };
    push_all(&mut r, &chars_of(w.key.as_str()));
    if ok {
        push_all(&mut r, &chars_of(" = "));
        push_all(&mut r, &chars_of(w.value.as_str()));
    }
    r
}

fn push_block(out: &mut Vec<char>, title: &str, items: &Vec<Vec<char>>)
    ensures
        final(out)@ == old(out)@ + block(title@, items@.map_values(|v: Vec<char>| v@)),
{
    let ghost m = items@.map_values(|v: Vec<char>| v@);
    if items.len() == 0 {
        assert(out@ =~= old(out)@ + block(title@, m));
        return;
    }
    push_all(out, &chars_of(title));
    push_all(out, &chars_of(" ("));
    push_all(out, &dec_chars(items.len() as u64));
    push_all(out, &chars_of("):\r\n"));
    let ghost head = out@;
    let mut i: usize = 0;
    while i < items.len()
        invariant
            i <= items@.len(),
            m == items@.map_values(|v: Vec<char>| v@),
            out@ == head + indented(m.take(i as int)),
        decreases items@.len() - i,
    {
        assert(m.take(i + 1).drop_last() =~= m.take(i as int));
        assert(m.take(i + 1).last() == items@[i as int]@);
        push_all(out, &chars_of("  "));
        push_all(out, &items[i]);
        push_all(out, &chars_of("\r\n"));
        assert(out@ =~= head + indented(m.take(i + 1)));
        i = i + 1;
    }
    assert(m.take(i as int) =~= m);
    assert(out@ =~= old(out)@ + block(title@, m));
}

/// The summary shown after the writes of `plan` were made, `oks[i]`
/// telling whether write `i` succeeded (see `summary_text`).
pub fn wizard_summary(plan: &Vec<IniWrite>, oks: &Vec<bool>) -> (s: String)
    requires
        plan@.len() == oks@.len(),
    ensures
        s@ == summary_text(plan_of(plan@), oks@),
{
    let ghost p = plan_of(plan@);
    let mut written: Vec<Vec<char>> = Vec::new();
    let mut failed: Vec<Vec<char>> = Vec::new();
    let mut i: usize = 0;
    while i < plan.len()
        invariant
            i <= plan@.len(),
            plan@.len() == oks@.len(),
            p == plan_of(plan@),
            written@.map_values(|v: Vec<char>| v@) == listed(p.take(i as int), oks@.take(i as int), true),
            failed@.map_values(|v: Vec<char>| v@) == listed(p.take(i as int), oks@.take(i as int), false),
        decreases plan@.len() - i,
    {
        assert(p.take(i + 1).drop_last() =~= p.take(i as int));
        assert(oks@.take(i + 1).drop_last() =~= oks@.take(i as int));
        assert(p.take(i + 1).last() == write_model(plan@[i as int]));
        assert(oks@.take(i + 1).last() == oks@[i as int]);
        if plan[i].reported {
            let t = entry_text(&plan[i], oks[i]);
            if oks[i] {
                let ghost w0 = written@.map_values(|v: Vec<char>| v@);
                written.push(t);
                assert(written@.map_values(|v: Vec<char>| v@) =~= w0.push(t@));
            } else {
                let ghost f0 = failed@.map_values(|v: Vec<char>| v@);
                failed.push(t);
                assert(failed@.map_values(|v: Vec<char>| v@) =~= f0.push(t@));
            }
        }
        i = i + 1;
    }
    assert(p.take(i as int) =~= p);
    assert(oks@.take(i as int) =~= oks@);
    let mut out: Vec<char> = Vec::new();
    push_block(&mut out, "Written", &written);
    push_block(&mut out, "Write failed", &failed);
    if written.len() == 0 && failed.len() == 0 {
        push_all(&mut out, &chars_of("Nothing to write (no fields discovered).\r\n"));
    }
    assert(out@ =~= summary_text(p, oks@));
    string_of(out.as_slice())
}

} // verus!
