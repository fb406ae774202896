use vstd::prelude::*;
use vstd::string::StringExecFns;
use super::{PortData, ProcessData};
use crate::text::{
    all_digits, parse_u64, parsed_u64, starts_with, str_trim_suffix, strings_view, strip_prefix,
    trim_suffix, trimmed_lines, trimmed_nonempty, lines,
};

verus! {

/// The lines of a PowerShell report: trimmed, without empty ones.
pub open spec fn report_lines(stdout: Seq<char>) -> Seq<Seq<char>> {
    trimmed_nonempty(lines(stdout))
}

/// The services a PowerShell listing names: one per non-empty line; none when
/// the listing failed.
pub fn parse_services(success: bool, stdout: &str) -> (r: Vec<String>)
    ensures
        success ==> strings_view(r@) == report_lines(stdout@),
        !success ==> r@.len() == 0,
{
    if success {
        trimmed_lines(stdout)
    } else {
        Vec::new()
    }
}

/// The name pattern services are listed by: the query between wildcards.
pub fn service_name_filter(query: &str) -> (r: String)
    ensures
        r@ == "*"@ + query@ + "*"@,
{
    let mut r = String::from_str("*");
    r.append(query);
    r.append("*");
    r
}

/// The WMI filter that selects a process: by id when the query is all digits,
/// else by name with or without ".exe".
pub open spec fn process_filter_spec(q: Seq<char>) -> Seq<char> {
    if all_digits(q) {
        "ProcessId = "@ + q
    } else {
        let name = trim_suffix(q, ".exe"@);
        "Name = '"@ + name + ".exe' or Name = '"@ + name + "'"@
    }
}

pub fn process_filter(query: &str) -> (r: String)
    ensures
        r@ == process_filter_spec(query@),
{
    let cs = crate::text::chars_of(query);
    let mut i: usize = 0;
    let mut digits = true;
    while i < cs.len()
        invariant
            cs@ == query@,
            i <= cs@.len(),
            digits == all_digits(cs@.take(i as int)),
        decreases cs@.len() - i,
    {
        proof {
            assert(cs@.take(i + 1).drop_last() == cs@.take(i as int));
            if digits && cs@[i as int] >= '0' && cs@[i as int] <= '9' {
                assert forall|j: int| 0 <= j < i + 1 implies #[trigger] crate::text::is_ascii_digit(cs@.take(i + 1)[j]) by {
                    if j < i {
                        assert(cs@.take(i + 1)[j] == cs@.take(i as int)[j]);
                    }
                }
            }
            if !(cs@[i as int] >= '0' && cs@[i as int] <= '9') {
                assert(!crate::text::is_ascii_digit(cs@.take(i + 1)[i as int]));
            }
            if !digits {
                let j = choose|j: int| 0 <= j < i && !#[trigger] crate::text::is_ascii_digit(cs@.take(i as int)[j]);
                assert(cs@.take(i + 1)[j] == cs@.take(i as int)[j]);
            }
        }
        digits = digits && cs[i] >= '0' && cs[i] <= '9';
        i += 1;
    }
    proof {
        assert(cs@.take(cs@.len() as int) == cs@);
    }
    if digits {
        let mut r = String::from_str("ProcessId = ");
        r.append(query);
        r
    } else {
        let name = str_trim_suffix(query, ".exe");
        let mut r = String::from_str("Name = '");
        r.append(name.as_str());
        r.append(".exe' or Name = '");
        r.append(name.as_str());
        r.append("'");
        r
    }
}

/// The field a process report line sets: the first of the prefixes
/// "PID:", "Name:", "Path:", "Parent:", "Cpu:", "Mem:", "Owner:", "Cmd:"
/// (numbered from 0) that it starts with; 8 for none.
pub open spec fn process_key(l: Seq<char>) -> int {
    if starts_with(l, "PID:"@) { 0 }
    else if starts_with(l, "Name:"@) { 1 }
    else if starts_with(l, "Path:"@) { 2 }
    else if starts_with(l, "Parent:"@) { 3 }
    else if starts_with(l, "Cpu:"@) { 4 }
    else if starts_with(l, "Mem:"@) { 5 }
    else if starts_with(l, "Owner:"@) { 6 }
    else if starts_with(l, "Cmd:"@) { 7 }
    else { 8 }
}

pub open spec fn process_prefix(k: int) -> Seq<char> {
    if k == 0 { "PID:"@ } else if k == 1 { "Name:"@ } else if k == 2 { "Path:"@ } else if k == 3 { "Parent:"@ }
    else if k == 4 { "Cpu:"@ } else if k == 5 { "Mem:"@ } else if k == 6 { "Owner:"@ } else { "Cmd:"@ }
}

/// The value the last line for field `k` gives it; empty when no line does.
pub open spec fn process_field(ls: Seq<Seq<char>>, k: int) -> Seq<char>
    decreases ls.len(),
{
    if ls.len() == 0 {
        seq![]
    } else if process_key(ls.last()) == k {
        ls.last().skip(process_prefix(k).len() as int)
    } else {
        process_field(ls.drop_last(), k)
    }
}

/// The fields of a process report, in the order of `ProcessData`, the memory
/// as a number (0 when it does not read as one).
pub type ProcessView = (Seq<char>, Seq<char>, Seq<char>, Seq<char>, Seq<char>, u64, Seq<char>, Seq<char>);

pub open spec fn process_view(p: ProcessData) -> ProcessView {
    (p.pid@, p.name@, p.path@, p.parent@, p.cpu@, p.mem_bytes, p.owner@, p.cmd_line@)
}

/// What a process report says: nothing when it is empty or reports
/// "NOT_FOUND", else the fields.
pub open spec fn process_report(stdout: Seq<char>) -> Option<ProcessView> {
    let ls = report_lines(stdout);
    if ls.contains("NOT_FOUND"@) || ls.len() == 0 {
        None
    } else {
        Some(
            (
                process_field(ls, 0),
                process_field(ls, 1),
                process_field(ls, 2),
                process_field(ls, 3),
                process_field(ls, 4),
                match parsed_u64(process_field(ls, 5)) {
                    Some(v) => v,
                    None => 0,
                },
                process_field(ls, 6),
                process_field(ls, 7),
            ),
        )
    }
}

fn contains_line(ls: &Vec<String>, line: &str) -> (r: bool)
    ensures
        r == strings_view(ls@).contains(line@),
{
    let target = String::from_str(line);
    let mut i: usize = 0;
    while i < ls.len()
        invariant
            i <= ls@.len(),
            target@ == line@,
            forall|j: int| 0 <= j < i ==> #[trigger] ls@[j]@ != line@,
        decreases ls@.len() - i,
    {
        if ls[i] == target {
            proof {
                assert(strings_view(ls@)[i as int] == line@);
            }
            return true;
        }
        i += 1;
    }
    proof {
        if strings_view(ls@).contains(line@) {
            let j = choose|j: int| 0 <= j < strings_view(ls@).len() && strings_view(ls@)[j] == line@;
            assert(ls@[j]@ == line@);
        }
    }
    false
}

/// Reads the report a process query printed.
pub fn parse_process_report(stdout: &str) -> (r: Option<ProcessData>)
    ensures
        match r {
            Some(p) => process_report(stdout@) == Some(process_view(p)),
            None => process_report(stdout@) is None,
        },
{
    let ls = trimmed_lines(stdout);
    let ghost lv = strings_view(ls@);
    if contains_line(&ls, "NOT_FOUND") || ls.len() == 0 {
        return None;
    }
    let mut pid = String::new();
    let mut name = String::new();
    let mut path = String::new();
    let mut parent = String::new();
    let mut cpu = String::new();
    let mut mem_str = String::new();
    let mut owner = String::new();
    let mut cmd_line = String::new();
    let mut i: usize = 0;
    proof {
        assert(lv.take(0) =~= Seq::<Seq<char>>::empty());
    }
    while i < ls.len()
        invariant
            lv == strings_view(ls@),
            i <= ls@.len(),
            pid@ == process_field(lv.take(i as int), 0),
            name@ == process_field(lv.take(i as int), 1),
            path@ == process_field(lv.take(i as int), 2),
            parent@ == process_field(lv.take(i as int), 3),
            cpu@ == process_field(lv.take(i as int), 4),
            mem_str@ == process_field(lv.take(i as int), 5),
            owner@ == process_field(lv.take(i as int), 6),
            cmd_line@ == process_field(lv.take(i as int), 7),
        decreases ls@.len() - i,
    {
        let line = ls[i].as_str();
        proof {
            assert(lv.take(i + 1).drop_last() == lv.take(i as int));
            assert(lv.take(i + 1).last() == line@);
        }
        if let Some(v) = strip_prefix(line, "PID:") {
            pid = v;
        } else if let Some(v) = strip_prefix(line, "Name:") {
            name = v;
        } else if let Some(v) = strip_prefix(line, "Path:") {
            path = v;
        } else if let Some(v) = strip_prefix(line, "Parent:") {
            parent = v;
        } else if let Some(v) = strip_prefix(line, "Cpu:") {
            cpu = v;
        } else if let Some(v) = strip_prefix(line, "Mem:") {
            mem_str = v;
        } else if let Some(v) = strip_prefix(line, "Owner:") {
            owner = v;
        } else if let Some(v) = strip_prefix(line, "Cmd:") {
            cmd_line = v;
        }
        i += 1;
    }
    proof {
        assert(lv.take(ls@.len() as int) == lv);
    }
    let mem_bytes = match parse_u64(mem_str.as_str()) {
        Some(v) => v,
        None => 0,
    };
    Some(ProcessData { pid, name, path, parent, cpu, mem_bytes, owner, cmd_line })
}

/// The field a port report line sets: the first of the prefixes "PID:",
/// "Name:", "Address:", "Parent:", "Cmd:" (numbered from 0) it starts with.
pub open spec fn port_key(l: Seq<char>) -> int {
    if starts_with(l, "PID:"@) { 0 }
    else if starts_with(l, "Name:"@) { 1 }
    else if starts_with(l, "Address:"@) { 2 }
    else if starts_with(l, "Parent:"@) { 3 }
    else if starts_with(l, "Cmd:"@) { 4 }
    else { 5 }
}

pub open spec fn port_prefix(k: int) -> Seq<char> {
    if k == 0 { "PID:"@ } else if k == 1 { "Name:"@ } else if k == 2 { "Address:"@ } else if k == 3 { "Parent:"@ }
    else { "Cmd:"@ }
}

pub open spec fn port_field(ls: Seq<Seq<char>>, k: int) -> Seq<char>
    decreases ls.len(),
{
    if ls.len() == 0 {
        seq![]
    } else if port_key(ls.last()) == k {
        ls.last().skip(port_prefix(k).len() as int)
    } else {
        port_field(ls.drop_last(), k)
    }
}

pub type PortView = (Seq<char>, Seq<char>, Seq<char>, Seq<char>, Seq<char>);

pub open spec fn port_view(p: PortData) -> PortView {
    (p.pid@, p.name@, p.address@, p.parent@, p.cmd_line@)
}

/// What a port report says: nothing when it is empty or reports
/// "STATUS:FREE", else the fields.
pub open spec fn port_report(stdout: Seq<char>) -> Option<PortView> {
    let ls = report_lines(stdout);
    if ls.contains("STATUS:FREE"@) || ls.len() == 0 {
        None
    } else {
        Some((port_field(ls, 0), port_field(ls, 1), port_field(ls, 2), port_field(ls, 3), port_field(ls, 4)))
    }
}

/// Reads the report a port query printed.
pub fn parse_port_report(stdout: &str) -> (r: Option<PortData>)
    ensures
        match r {
            Some(p) => port_report(stdout@) == Some(port_view(p)),
            None => port_report(stdout@) is None,
        },
{
    let ls = trimmed_lines(stdout);
    let ghost lv = strings_view(ls@);
    if contains_line(&ls, "STATUS:FREE") || ls.len() == 0 {
        return None;
    }
    let mut pid = String::new();
    let mut name = String::new();
    let mut address = String::new();
    let mut parent = String::new();
    let mut cmd_line = String::new();
    let mut i: usize = 0;
    proof {
        assert(lv.take(0) =~= Seq::<Seq<char>>::empty());
    }
    while i < ls.len()
        invariant
            lv == strings_view(ls@),
            i <= ls@.len(),
            pid@ == port_field(lv.take(i as int), 0),
            name@ == port_field(lv.take(i as int), 1),
            address@ == port_field(lv.take(i as int), 2),
            parent@ == port_field(lv.take(i as int), 3),
            cmd_line@ == port_field(lv.take(i as int), 4),
        decreases ls@.len() - i,
    {
        let line = ls[i].as_str();
        proof {
            assert(lv.take(i + 1).drop_last() == lv.take(i as int));
            assert(lv.take(i + 1).last() == line@);
        }
        if let Some(v) = strip_prefix(line, "PID:") {
            pid = v;
        } else if let Some(v) = strip_prefix(line, "Name:") {
            name = v;
        } else if let Some(v) = strip_prefix(line, "Address:") {
            address = v;
        } else if let Some(v) = strip_prefix(line, "Parent:") {
            parent = v;
        } else if let Some(v) = strip_prefix(line, "Cmd:") {
            cmd_line = v;
        }
        i += 1;
    }
    proof {
        assert(lv.take(ls@.len() as int) == lv);
    }
    Some(PortData { pid, name, address, parent, cmd_line })
}

} // verus!

verus! {

/// `ls[i]` is the last of the lines `ls` that begins with `p`.
pub open spec fn last_line_with(ls: Seq<Seq<char>>, i: int, p: Seq<char>) -> bool {
    &&& 0 <= i < ls.len()
    &&& starts_with(ls[i], p)
    &&& forall|j: int| i < j < ls.len() ==> !starts_with(#[trigger] ls[j], p)
}

proof fn lemma_prefix_char(l: Seq<char>, p: Seq<char>, d: int)
    requires
        starts_with(l, p),
        0 <= d < p.len(),
    ensures
        l[d] == p[d],
{
    assert(l.take(p.len() as int)[d] == l[d]);
}

/// A line that begins with one of the eight prefixes sets that prefix's
/// field: no two of the prefixes can begin the same line.
proof fn lemma_process_key_of(l: Seq<char>)
    ensures
        starts_with(l, "PID:"@) ==> process_key(l) == 0,
        starts_with(l, "Name:"@) ==> process_key(l) == 1,
        starts_with(l, "Path:"@) ==> process_key(l) == 2,
        starts_with(l, "Parent:"@) ==> process_key(l) == 3,
        starts_with(l, "Cpu:"@) ==> process_key(l) == 4,
        starts_with(l, "Mem:"@) ==> process_key(l) == 5,
        starts_with(l, "Owner:"@) ==> process_key(l) == 6,
        starts_with(l, "Cmd:"@) ==> process_key(l) == 7,
{
    reveal_strlit("PID:");
    reveal_strlit("Name:");
    reveal_strlit("Path:");
    reveal_strlit("Parent:");
    reveal_strlit("Cpu:");
    reveal_strlit("Mem:");
    reveal_strlit("Owner:");
    reveal_strlit("Cmd:");
    let ps = seq!["PID:"@, "Name:"@, "Path:"@, "Parent:"@, "Cpu:"@, "Mem:"@, "Owner:"@, "Cmd:"@];
    assert forall|a: int, b: int| 0 <= a < b < 8 && #[trigger] starts_with(l, ps[a]) implies !#[trigger] starts_with(
        l,
        ps[b],
    ) by {
        if starts_with(l, ps[b]) {
            lemma_prefix_char(l, ps[a], 0);
            lemma_prefix_char(l, ps[b], 0);
            lemma_prefix_char(l, ps[a], 1);
            lemma_prefix_char(l, ps[b], 1);
            lemma_prefix_char(l, ps[a], 2);
            lemma_prefix_char(l, ps[b], 2);
        }
    }
    assert(ps[0] == "PID:"@ && ps[1] == "Name:"@ && ps[2] == "Path:"@ && ps[3] == "Parent:"@);
    assert(ps[4] == "Cpu:"@ && ps[5] == "Mem:"@ && ps[6] == "Owner:"@ && ps[7] == "Cmd:"@);
    assert(starts_with(l, ps[1]) ==> !starts_with(l, ps[0]));
    assert(starts_with(l, ps[2]) ==> !starts_with(l, ps[0]) && !starts_with(l, ps[1]));
    assert(starts_with(l, ps[3]) ==> !starts_with(l, ps[0]) && !starts_with(l, ps[1]) && !starts_with(l, ps[2]));
    assert(starts_with(l, ps[4]) ==> !starts_with(l, ps[0]) && !starts_with(l, ps[1]) && !starts_with(l, ps[2])
        && !starts_with(l, ps[3]));
    assert(starts_with(l, ps[5]) ==> !starts_with(l, ps[0]) && !starts_with(l, ps[1]) && !starts_with(l, ps[2])
        && !starts_with(l, ps[3]) && !starts_with(l, ps[4]));
    assert(starts_with(l, ps[6]) ==> !starts_with(l, ps[0]) && !starts_with(l, ps[1]) && !starts_with(l, ps[2])
        && !starts_with(l, ps[3]) && !starts_with(l, ps[4]) && !starts_with(l, ps[5]));
    assert(starts_with(l, ps[7]) ==> !starts_with(l, ps[0]) && !starts_with(l, ps[1]) && !starts_with(l, ps[2])
        && !starts_with(l, ps[3]) && !starts_with(l, ps[4]) && !starts_with(l, ps[5]) && !starts_with(l, ps[6]));
}

proof fn lemma_field_from_last(ls: Seq<Seq<char>>, k: int, i: int)
    requires
        0 <= k < 8,
        0 <= i < ls.len(),
        process_key(ls[i]) == k,
        forall|j: int| i < j < ls.len() ==> process_key(#[trigger] ls[j]) != k,
    ensures
        process_field(ls, k) == ls[i].skip(process_prefix(k).len() as int),
    decreases ls.len(),
{
    if i < ls.len() - 1 {
        assert(process_key(ls.last()) != k);
        let d = ls.drop_last();
        assert forall|j: int| i < j < d.len() implies process_key(#[trigger] d[j]) != k by {
            assert(d[j] == ls[j]);
        }
        lemma_field_from_last(d, k, i);
    }
}

proof fn lemma_field_absent(ls: Seq<Seq<char>>, k: int)
    requires
        forall|j: int| 0 <= j < ls.len() ==> process_key(#[trigger] ls[j]) != k,
    ensures
        process_field(ls, k) == Seq::<char>::empty(),
    decreases ls.len(),
{
    if ls.len() > 0 {
        let d = ls.drop_last();
        assert(process_key(ls[ls.len() - 1]) != k);
        assert forall|j: int| 0 <= j < d.len() implies process_key(#[trigger] d[j]) != k by {
            assert(d[j] == ls[j]);
        }
        lemma_field_absent(d, k);
    }
}

proof fn lemma_one_field(ls: Seq<Seq<char>>, i: int, p: Seq<char>, k: int)
    requires
        0 <= k < 8,
        p == process_prefix(k),
        forall|l: Seq<char>| starts_with(l, p) ==> #[trigger] process_key(l) == k,
    ensures
        last_line_with(ls, i, p) ==> process_field(ls, k) == ls[i].skip(p.len() as int),
        (forall|j: int| 0 <= j < ls.len() ==> !starts_with(#[trigger] ls[j], p)) ==> process_field(ls, k)
            == Seq::<char>::empty(),
{
    if last_line_with(ls, i, p) {
        assert forall|j: int| i < j < ls.len() implies process_key(#[trigger] ls[j]) != k by {
            assert(!starts_with(ls[j], p));
        }
        lemma_field_from_last(ls, k, i);
    }
    if forall|j: int| 0 <= j < ls.len() ==> !starts_with(#[trigger] ls[j], p) {
        assert forall|j: int| 0 <= j < ls.len() implies process_key(#[trigger] ls[j]) != k by {
            assert(!starts_with(ls[j], p));
        }
        lemma_field_absent(ls, k);
    }
}

/// Each field of a process report is the text after its label on the last
/// line that begins with that label ("PID:", "Name:", "Path:", "Parent:",
/// "Cpu:", "Mem:", "Owner:", "Cmd:"), the memory read as a number (0 when it
/// does not read as one); a field no line sets is empty.
pub proof fn lemma_process_report_fields(stdout: Seq<char>, i: int)
    requires
        process_report(stdout) is Some,
    ensures
        ({
            let ls = report_lines(stdout);
            let v = process_report(stdout).unwrap();
            &&& last_line_with(ls, i, "PID:"@) ==> v.0 == ls[i].skip("PID:"@.len() as int)
            &&& last_line_with(ls, i, "Name:"@) ==> v.1 == ls[i].skip("Name:"@.len() as int)
            &&& last_line_with(ls, i, "Path:"@) ==> v.2 == ls[i].skip("Path:"@.len() as int)
            &&& last_line_with(ls, i, "Parent:"@) ==> v.3 == ls[i].skip("Parent:"@.len() as int)
            &&& last_line_with(ls, i, "Cpu:"@) ==> v.4 == ls[i].skip("Cpu:"@.len() as int)
            &&& last_line_with(ls, i, "Mem:"@) ==> v.5 == match parsed_u64(ls[i].skip("Mem:"@.len() as int)) {
                Some(x) => x,
                None => 0,
            }
            &&& last_line_with(ls, i, "Owner:"@) ==> v.6 == ls[i].skip("Owner:"@.len() as int)
            &&& last_line_with(ls, i, "Cmd:"@) ==> v.7 == ls[i].skip("Cmd:"@.len() as int)
            &&& (forall|j: int| 0 <= j < ls.len() ==> !starts_with(#[trigger] ls[j], "Parent:"@)) ==> v.3
                == Seq::<char>::empty()
            &&& (forall|j: int| 0 <= j < ls.len() ==> !starts_with(#[trigger] ls[j], "Owner:"@)) ==> v.6
                == Seq::<char>::empty()
        }),
{
    let ls = report_lines(stdout);
    assert forall|l: Seq<char>| starts_with(l, "PID:"@) implies #[trigger] process_key(l) == 0 by {
        lemma_process_key_of(l);
    }
    assert forall|l: Seq<char>| starts_with(l, "Name:"@) implies #[trigger] process_key(l) == 1 by {
        lemma_process_key_of(l);
    }
    assert forall|l: Seq<char>| starts_with(l, "Path:"@) implies #[trigger] process_key(l) == 2 by {
        lemma_process_key_of(l);
    }
    assert forall|l: Seq<char>| starts_with(l, "Parent:"@) implies #[trigger] process_key(l) == 3 by {
        lemma_process_key_of(l);
    }
    assert forall|l: Seq<char>| starts_with(l, "Cpu:"@) implies #[trigger] process_key(l) == 4 by {
        lemma_process_key_of(l);
    }
    assert forall|l: Seq<char>| starts_with(l, "Mem:"@) implies #[trigger] process_key(l) == 5 by {
        lemma_process_key_of(l);
    }
    assert forall|l: Seq<char>| starts_with(l, "Owner:"@) implies #[trigger] process_key(l) == 6 by {
        lemma_process_key_of(l);
    }
    assert forall|l: Seq<char>| starts_with(l, "Cmd:"@) implies #[trigger] process_key(l) == 7 by {
        lemma_process_key_of(l);
    }
    lemma_one_field(ls, i, "PID:"@, 0);
    lemma_one_field(ls, i, "Name:"@, 1);
    lemma_one_field(ls, i, "Path:"@, 2);
    lemma_one_field(ls, i, "Parent:"@, 3);
    lemma_one_field(ls, i, "Cpu:"@, 4);
    lemma_one_field(ls, i, "Mem:"@, 5);
    lemma_one_field(ls, i, "Owner:"@, 6);
    lemma_one_field(ls, i, "Cmd:"@, 7);
}

} // verus!

verus! {

proof fn lemma_port_key_of(l: Seq<char>)
    ensures
        starts_with(l, "PID:"@) ==> port_key(l) == 0,
        starts_with(l, "Name:"@) ==> port_key(l) == 1,
        starts_with(l, "Address:"@) ==> port_key(l) == 2,
        starts_with(l, "Parent:"@) ==> port_key(l) == 3,
        starts_with(l, "Cmd:"@) ==> port_key(l) == 4,
{
    reveal_strlit("PID:");
    reveal_strlit("Name:");
    reveal_strlit("Address:");
    reveal_strlit("Parent:");
    reveal_strlit("Cmd:");
    let ps = seq!["PID:"@, "Name:"@, "Address:"@, "Parent:"@, "Cmd:"@];
    assert forall|a: int, b: int| 0 <= a < b < 5 && #[trigger] starts_with(l, ps[a]) implies !#[trigger] starts_with(
        l,
        ps[b],
    ) by {
        if starts_with(l, ps[b]) {
            lemma_prefix_char(l, ps[a], 0);
            lemma_prefix_char(l, ps[b], 0);
            lemma_prefix_char(l, ps[a], 1);
            lemma_prefix_char(l, ps[b], 1);
        }
    }
    assert(ps[0] == "PID:"@ && ps[1] == "Name:"@ && ps[2] == "Address:"@ && ps[3] == "Parent:"@ && ps[4] == "Cmd:"@);
    assert(starts_with(l, ps[1]) ==> !starts_with(l, ps[0]));
    assert(starts_with(l, ps[2]) ==> !starts_with(l, ps[0]) && !starts_with(l, ps[1]));
    assert(starts_with(l, ps[3]) ==> !starts_with(l, ps[0]) && !starts_with(l, ps[1]) && !starts_with(l, ps[2]));
    assert(starts_with(l, ps[4]) ==> !starts_with(l, ps[0]) && !starts_with(l, ps[1]) && !starts_with(l, ps[2])
        && !starts_with(l, ps[3]));
}

proof fn lemma_port_field_from_last(ls: Seq<Seq<char>>, k: int, i: int)
    requires
        0 <= k < 5,
        0 <= i < ls.len(),
        port_key(ls[i]) == k,
        forall|j: int| i < j < ls.len() ==> port_key(#[trigger] ls[j]) != k,
    ensures
        port_field(ls, k) == ls[i].skip(port_prefix(k).len() as int),
    decreases ls.len(),
{
    if i < ls.len() - 1 {
        assert(port_key(ls.last()) != k);
        let d = ls.drop_last();
        assert forall|j: int| i < j < d.len() implies port_key(#[trigger] d[j]) != k by {
            assert(d[j] == ls[j]);
        }
        lemma_port_field_from_last(d, k, i);
    }
}

proof fn lemma_one_port_field(ls: Seq<Seq<char>>, i: int, p: Seq<char>, k: int)
    requires
        0 <= k < 5,
        p == port_prefix(k),
        forall|l: Seq<char>| starts_with(l, p) ==> #[trigger] port_key(l) == k,
    ensures
        last_line_with(ls, i, p) ==> port_field(ls, k) == ls[i].skip(p.len() as int),
{
    if last_line_with(ls, i, p) {
        assert forall|j: int| i < j < ls.len() implies port_key(#[trigger] ls[j]) != k by {
            assert(!starts_with(ls[j], p));
        }
        lemma_port_field_from_last(ls, k, i);
    }
}

/// Each field of a port report is the text after its label on the last line
/// that begins with that label ("PID:", "Name:", "Address:", "Parent:",
/// "Cmd:").
pub proof fn lemma_port_report_fields(stdout: Seq<char>, i: int)
    requires
        port_report(stdout) is Some,
    ensures
        ({
            let ls = report_lines(stdout);
            let v = port_report(stdout).unwrap();
            &&& last_line_with(ls, i, "PID:"@) ==> v.0 == ls[i].skip("PID:"@.len() as int)
            &&& last_line_with(ls, i, "Name:"@) ==> v.1 == ls[i].skip("Name:"@.len() as int)
            &&& last_line_with(ls, i, "Address:"@) ==> v.2 == ls[i].skip("Address:"@.len() as int)
            &&& last_line_with(ls, i, "Parent:"@) ==> v.3 == ls[i].skip("Parent:"@.len() as int)
            &&& last_line_with(ls, i, "Cmd:"@) ==> v.4 == ls[i].skip("Cmd:"@.len() as int)
        }),
{
    let ls = report_lines(stdout);
    assert forall|l: Seq<char>| starts_with(l, "PID:"@) implies #[trigger] port_key(l) == 0 by {
        lemma_port_key_of(l);
    }
    assert forall|l: Seq<char>| starts_with(l, "Name:"@) implies #[trigger] port_key(l) == 1 by {
        lemma_port_key_of(l);
    }
    assert forall|l: Seq<char>| starts_with(l, "Address:"@) implies #[trigger] port_key(l) == 2 by {
        lemma_port_key_of(l);
    }
    assert forall|l: Seq<char>| starts_with(l, "Parent:"@) implies #[trigger] port_key(l) == 3 by {
        lemma_port_key_of(l);
    }
    assert forall|l: Seq<char>| starts_with(l, "Cmd:"@) implies #[trigger] port_key(l) == 4 by {
        lemma_port_key_of(l);
    }
    lemma_one_port_field(ls, i, "PID:"@, 0);
    lemma_one_port_field(ls, i, "Name:"@, 1);
    lemma_one_port_field(ls, i, "Address:"@, 2);
    lemma_one_port_field(ls, i, "Parent:"@, 3);
    lemma_one_port_field(ls, i, "Cmd:"@, 4);
}

} // verus!
