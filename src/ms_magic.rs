use vstd::prelude::*;

verus! {

/// Label of a profile health status.
pub open spec fn health_label(health_status: i16) -> Seq<char> {
    if health_status == 0 {
        "Gesund"@
    } else if health_status == 1 {
        "Ungesund"@
    } else if health_status == 2 {
        "Achtung"@
    } else {
        Seq::empty()
    }
}

pub fn resolve_profile_health_status(health_status: i16) -> (r: String)
    ensures
        r@ == health_label(health_status),
{
    match health_status {
        0 => String::from_str("Gesund"),
        1 => String::from_str("Ungesund"),
        2 => String::from_str("Achtung"),
        _ => String::new(),
    }
}

/// Labels of the flags set in a profile status bitmask, lowest bit first.
pub open spec fn status_labels(status: i64) -> Seq<Seq<char>> {
    let a: Seq<Seq<char>> = if status & 1 == 1 { seq!["Temporary"@] } else { Seq::empty() };
    let b: Seq<Seq<char>> = if status & 2 == 2 { a.push("Roaming"@) } else { a };
    let c: Seq<Seq<char>> = if status & 4 == 4 { b.push("Mandatory"@) } else { b };
    if status & 8 == 8 { c.push("Corrupted"@) } else { c }
}

pub fn resolve_profile_status(status: i64) -> (r: Vec<String>)
    ensures
        r@.map_values(|s: String| s@) == status_labels(status),
{
    let mut output: Vec<String> = Vec::new();
    if status & 1 == 1 {
        output.push(String::from_str("Temporary"));
    }
    let ghost a = output@.map_values(|s: String| s@);
    if status & 2 == 2 {
        output.push(String::from_str("Roaming"));
    }
    let ghost b = output@.map_values(|s: String| s@);
    if status & 4 == 4 {
        output.push(String::from_str("Mandatory"));
    }
    let ghost c = output@.map_values(|s: String| s@);
    if status & 8 == 8 {
        output.push(String::from_str("Corrupted"));
    }
    let ghost d = output@.map_values(|s: String| s@);
    assert(a =~= (if status & 1 == 1 { seq!["Temporary"@] } else { Seq::<Seq<char>>::empty() }));
    assert(b =~= (if status & 2 == 2 { a.push("Roaming"@) } else { a }));
    assert(c =~= (if status & 4 == 4 { b.push("Mandatory"@) } else { b }));
    assert(d =~= (if status & 8 == 8 { c.push("Corrupted"@) } else { c }));
    output
}

} // verus!
