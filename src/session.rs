use vstd::prelude::*;

verus! {

/// How an interactive selection ended.
#[verifier::reject_recursive_types(T)]
pub enum SessionEnd<T> {
    /// The user accepted; the chosen items in selection order.
    Accepted(Vec<T>),
    /// The user aborted.
    Aborted,
    /// The interactive loop failed; treated as an abort.
    Faulted,
}

/// How the fuzzy matcher treats letter case.
#[derive(Debug, Clone, Copy, PartialEq, Eq, Structural)]
pub enum CaseMode {
    /// Case-sensitive unless the query is all lower case.
    Smart,
    /// Case-insensitive.
    Ignore,
    /// Case-sensitive.
    Respect,
}

/// The items that a session hands on: those chosen on acceptance, none on an
/// abort or a fault.
pub open spec fn selection_of<T>(end: SessionEnd<T>) -> Seq<T> {
    match end {
        SessionEnd::Accepted(v) => v@,
        _ => Seq::<T>::empty(),
    }
}

/// Reduces the end of a session to the list of selected items.
pub fn reduce_session<T>(end: SessionEnd<T>) -> (r: Vec<T>)
    ensures
        r@ == selection_of(end),
{
    match end {
        SessionEnd::Accepted(v) => v,
        _ => Vec::new(),
    }
}

/// The text written for the selected lines: each line followed by a newline.
pub open spec fn output_text(lines: Seq<Seq<char>>) -> Seq<char>
    decreases lines.len(),
{
    if lines.len() == 0 {
        Seq::<char>::empty()
    } else {
        output_text(lines.drop_last()) + lines.last() + seq!['\n']
    }
}

/// The output for the selected lines, one per line, in selection order.
pub fn format_selection(lines: &Vec<String>) -> (r: String)
    ensures
        r@ == output_text(lines@.map_values(|l: String| l@)),
{
    let ghost all = lines@.map_values(|l: String| l@);
    let mut out = String::new();
    for i in 0..lines.len()
        invariant
            all == lines@.map_values(|l: String| l@),
            out@ == output_text(all.take(i as int)),
    {
        out.append(lines[i].as_str());
        out.append("\n");
        proof {
            reveal_strlit("\n");
        }
        assert(all.take(i + 1).drop_last() =~= all.take(i as int));
        assert(all.take(i + 1).last() == lines@[i as int]@);
    }
    assert(all.take(lines@.len() as int) =~= all);
    out
}

/// `name` is present and holds the text `word`.
pub open spec fn is_named(name: Option<&String>, word: Seq<char>) -> bool {
    match name {
        Some(s) => s@ == word,
        None => false,
    }
}

/// The case mode named on the command line: `smart`, `ignore`, and
/// anything else, or nothing, for `Respect`.
pub fn case_mode(name: Option<&String>) -> (r: CaseMode)
    ensures
        is_named(name, "smart"@) ==> r == CaseMode::Smart,
        is_named(name, "ignore"@) ==> r == CaseMode::Ignore,
        !is_named(name, "smart"@) && !is_named(name, "ignore"@) ==> r == CaseMode::Respect,
{
    match name {
        None => CaseMode::Respect,
        Some(s) => {
            let smart = String::from_str("smart");
            let ignore = String::from_str("ignore");
            proof {
                reveal_strlit("smart");
                reveal_strlit("ignore");
                assert("smart"@.len() != "ignore"@.len());
            }
            if *s == smart {
                CaseMode::Smart
            } else if *s == ignore {
                CaseMode::Ignore
            } else {
                CaseMode::Respect
            }
        },
    }
}

} // verus!
