//! The rows the database popups draw, and the line the startup notices
//! show as.

use vstd::prelude::*;

verus! {

/// One column of a database view, as the columns popup draws it: the
/// property's id and name, its kind's name, whether the view shows it, and
/// whether its switch is locked (the title column is a row's name, so it has
/// no switch).
#[derive(Debug, Clone, PartialEq, Eq)]
pub struct DbColumnToggle {
    pub property: i32,
    pub name: String,
    pub kind: String,
    pub visible: bool,
    pub locked: bool,
}

/// One filter-panel row, as the panel draws it: the clause's ids plus the
/// display strings its column's kind needs (the comparison's word, and the
/// value as stored or as its option's name). A row with `has_value ==
/// false` is a rule nobody has filled in yet, which filters nothing.
#[derive(Debug, Clone, PartialEq)]
pub struct DbFilterPanelRow {
    pub property: i32,
    pub name: String,
    /// The property kind's number, which decides the value editor the row
    /// draws.
    pub kind: i32,
    /// The comparison's index in the op picker's list.
    pub op: i32,
    pub op_name: String,
    pub value: String,
    pub has_value: bool,
    /// A `not` around this clause ("is not", "does not contain").
    pub invert: bool,
}

/// `parts` joined with `sep` between each two.
pub open spec fn joined(parts: Seq<Seq<char>>, sep: Seq<char>) -> Seq<char>
    decreases parts.len(),
{
    if parts.len() == 0 {
        Seq::empty()
    } else if parts.len() == 1 {
        parts[0]
    } else {
        joined(parts.drop_last(), sep) + sep + parts.last()
    }
}

/// The queued startup notices as one line: joined with "; ", ending in a
/// full stop. None while the queue is empty.
pub open spec fn notice_line(queue: Seq<Seq<char>>) -> Option<Seq<char>> {
    if queue.len() == 0 {
        None
    } else {
        let line = joined(queue, "; "@);
        if line.len() > 0 && line.last() == '.' {
            Some(line)
        } else {
            Some(line + "."@)
        }
    }
}

/// Queue one startup notice behind the ones already waiting.
pub fn set_db_notice(queue: &mut Vec<String>, notice: String)
    ensures
        final(queue)@ == old(queue)@.push(notice),
{
    queue.push(notice);
}

/// The queued notices joined as one line, in queue order.
fn notice_text(queue: &Vec<String>) -> (line: String)
    requires
        queue@.len() > 0,
    ensures
        line@ == joined(queue@.map_values(|q: String| q@), "; "@),
{
    let ghost parts = queue@.map_values(|q: String| q@);
    let mut line = queue[0].clone();
    let mut i: usize = 1;
    proof {
        assert(parts.take(1) =~= seq![parts[0]]);
    }
    while i < queue.len()
        invariant
            1 <= i <= queue@.len(),
            parts == queue@.map_values(|q: String| q@),
            line@ == joined(parts.take(i as int), "; "@),
        decreases queue@.len() - i,
    {
        line.append("; ");
        line.append(queue[i].as_str());
        proof {
            let next = parts.take(i + 1);
            assert(next.drop_last() =~= parts.take(i as int));
            assert(next.last() == queue@[i as int]@);
        }
        i = i + 1;
    }
    proof {
        assert(parts.take(queue@.len() as int) =~= parts);
    }
    line
}

/// Drain the startup notices (abort banner, backup restore, library move)
/// as one line: none when nothing is queued, and the queue is empty
/// afterwards, so each notice is shown once.
pub fn take_db_notice(queue: &mut Vec<String>) -> (r: Option<String>)
    ensures
        r matches Some(line) ==> notice_line(old(queue)@.map_values(|q: String| q@)) == Some(line@),
        r is None <==> old(queue)@.len() == 0,
        final(queue)@.len() == 0,
{
    if queue.len() == 0 {
        return None;
    }
    let mut line = notice_text(queue);
    queue.clear();
    let n = line.as_str().unicode_len();
    let ends_in_stop = n > 0 && line.as_str().get_char(n - 1) == '.';
    if !ends_in_stop {
        line.append(".");
    }
    Some(line)
}

} // verus!
