use vstd::prelude::*;

verus! {

/// A failure tagged with the subsystem ("scope") it came from.
#[derive(Clone, Debug, PartialEq, Eq)]
pub struct ScopedError {
    pub scope: String,
    pub message: String,
}

/// The text of one failure in a joined report.
pub open spec fn scoped_line(scope: Seq<char>, message: Seq<char>) -> Seq<char> {
    "Scope: "@ + scope + ", Message: "@ + message
}

/// All failures of one call, one line each, joined by newlines.
pub open spec fn joined_report(errors: Seq<ScopedError>) -> Seq<char>
    decreases errors.len(),
{
    if errors.len() == 0 {
        Seq::empty()
    } else if errors.len() == 1 {
        scoped_line(errors[0].scope@, errors[0].message@)
    } else {
        joined_report(errors.drop_last()) + "\n"@ + scoped_line(
            errors.last().scope@,
            errors.last().message@,
        )
    }
}

impl ScopedError {
    pub fn new(scope: String, message: String) -> (r: ScopedError)
        ensures
            r.scope@ == scope@,
            r.message@ == message@,
    {
        ScopedError { scope, message }
    }

    /// This failure as one line: `Scope: <scope>, Message: <message>`.
    pub fn to_line(&self) -> (r: String)
        ensures
            r@ == scoped_line(self.scope@, self.message@),
    {
        let mut line = String::from_str("Scope: ");
        line.append(self.scope.as_str());
        line.append(", Message: ");
        line.append(self.message.as_str());
        line
    }
}

/// Joins the failures of one call into a single report, one line per failure,
/// in the order in which they were collected.
pub fn join_errors(errors: &Vec<ScopedError>) -> (r: String)
    ensures
        r@ == joined_report(errors@),
{
    let mut report = String::new();
    let mut i: usize = 0;
    while i < errors.len()
        invariant
            i <= errors@.len(),
            report@ == joined_report(errors@.take(i as int)),
        decreases errors@.len() - i,
    {
        let line = errors[i].to_line();
        if i > 0 {
            report.append("\n");
        }
        report.append(line.as_str());
        proof {
            let next = errors@.take(i as int + 1);
            assert(next.drop_last() =~= errors@.take(i as int));
            if i == 0 {
                assert(joined_report(errors@.take(0)) =~= Seq::<char>::empty());
            }
        }
        i = i + 1;
    }
    assert(errors@.take(errors@.len() as int) =~= errors@);
    report
}

} // verus!
