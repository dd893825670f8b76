//! Line diffs between a file's original text and a suggested replacement,
//! computed by the `similar` crate, and the text of their gutters.
use vstd::prelude::*;
use crate::text::{decimal, decimal_text};

verus! {

/// What happened to a line.
#[derive(Debug, Clone, Copy, PartialEq, Eq, Structural)]
pub enum ChangeKind {
    Delete,
    Insert,
    Equal,
}

/// One line of a diff.
pub struct DiffLine {
    pub kind: ChangeKind,
    /// The line's index in the original text, where it is there.
    pub old_index: Option<usize>,
    /// The line's index in the replacement text, where it is there.
    pub new_index: Option<usize>,
    /// The line's text, with its line break where it has one.
    pub text: String,
    /// The line does not end in a line break.
    pub missing_newline: bool,
}

/// The view of one diff line.
pub type DiffLineView = (ChangeKind, Option<usize>, Option<usize>, Seq<char>, bool);

/// The views of the hunks of a diff.
pub open spec fn hunks_view(hunks: Seq<Vec<DiffLine>>) -> Seq<Seq<DiffLineView>> {
    hunks.map_values(
        |h: Vec<DiffLine>|
            h@.map_values(
                |l: DiffLine| (l.kind, l.old_index, l.new_index, l.text@, l.missing_newline),
            ),
    )
}

/// What `similar::TextDiff::from_lines(original, replacement)` yields through
/// `grouped_ops(3)` and `iter_changes`: the hunks of a line diff, each with up
/// to three lines of context.
pub uninterp spec fn line_diff_hunks(original: Seq<char>, replacement: Seq<char>) -> Seq<
    Seq<DiffLineView>,
>;

/// Relies on `similar::TextDiff::from_lines`, grouped into hunks with three
/// lines of context by `grouped_ops` and read through `iter_changes`.
#[verifier::external_body]
pub(crate) fn diff_hunks(original: &str, replacement: &str) -> (r: Vec<Vec<DiffLine>>)
    ensures
        hunks_view(r@) == line_diff_hunks(original@, replacement@),
{
    let diff = similar::TextDiff::from_lines(original, replacement);
    let hunk = |ops: &Vec<similar::DiffOp>| -> Vec<DiffLine> {
        ops.iter().flat_map(|op| diff.iter_changes(op)).map(|c| DiffLine {
            kind: match c.tag() {
                similar::ChangeTag::Delete => ChangeKind::Delete,
                similar::ChangeTag::Insert => ChangeKind::Insert,
                similar::ChangeTag::Equal => ChangeKind::Equal,
            },
            old_index: c.old_index(),
            new_index: c.new_index(),
            text: c.to_string_lossy().to_string(),
            missing_newline: c.missing_newline(),
        }).collect()
    };
    diff.grouped_ops(3).iter().map(hunk).collect()
}

/// `s` right-aligned in a field of `width` characters.
pub open spec fn padded_left(s: Seq<char>, width: nat) -> Seq<char> {
    if s.len() >= width {
        s
    } else {
        Seq::new((width - s.len()) as nat, |i: int| ' ') + s
    }
}

/// `s` left-aligned in a field of `width` characters.
pub open spec fn padded_right(s: Seq<char>, width: nat) -> Seq<char> {
    if s.len() >= width {
        s
    } else {
        s + Seq::new((width - s.len()) as nat, |i: int| ' ')
    }
}

fn spaces(n: usize) -> (r: String)
    ensures
        r@ == Seq::new(n as nat, |i: int| ' '),
{
    let mut s = String::new();
    let mut i: usize = 0;
    while i < n
        invariant
            i <= n,
            s@ == Seq::new(i as nat, |k: int| ' '),
        decreases n - i,
    {
        s.append(" ");
        proof {
            reveal_strlit(" ");
            assert(s@ =~= Seq::new((i + 1) as nat, |k: int| ' '));
        }
        i = i + 1;
    }
    s
}

/// `s` right-aligned in a field of `width` characters.
pub fn pad_left(s: &str, width: usize) -> (r: String)
    ensures
        r@ == padded_left(s@, width as nat),
{
    let n = s.unicode_len();
    if n >= width {
        String::from_str(s)
    } else {
        let mut out = spaces(width - n);
        out.append(s);
        out
    }
}

/// `s` left-aligned in a field of `width` characters.
pub fn pad_right(s: &str, width: usize) -> (r: String)
    ensures
        r@ == padded_right(s@, width as nat),
{
    let n = s.unicode_len();
    let mut out = String::from_str(s);
    if n < width {
        let fill = spaces(width - n);
        out.append(fill.as_str());
    }
    out
}

/// The one-based line number of an index, in decimal.
pub open spec fn line_number_text(index: usize) -> Seq<char> {
    decimal(index as nat + 1)
}

/// The gutter of a diff line: its line numbers in the original and the
/// replacement, each right-aligned to `width`, two spaces apart; a side the
/// line is missing from is left blank.
pub open spec fn gutter_text(old: Option<usize>, new: Option<usize>, width: nat) -> Seq<char> {
    let left = match old {
        Some(o) => padded_left(line_number_text(o), width),
        None => padded_right(" "@, width),
    };
    let right = match new {
        Some(n) => padded_left(line_number_text(n), width),
        None => padded_right(" "@, width),
    };
    left + "  "@ + right
}

fn number_column(index: Option<usize>, width: usize) -> (r: String)
    requires
        index matches Some(i) ==> i < usize::MAX,
    ensures
        r@ == match index {
            Some(o) => padded_left(line_number_text(o), width as nat),
            None => padded_right(" "@, width as nat),
        },
{
    match index {
        Some(i) => {
            let d = decimal_text(i + 1);
            pad_left(d.as_str(), width)
        },
        None => pad_right(" ", width),
    }
}

/// The gutter of a diff line, with its line numbers right-aligned to `width`.
pub fn change_gutter(line: &DiffLine, width: usize) -> (r: String)
    requires
        line.old_index matches Some(i) ==> i < usize::MAX,
        line.new_index matches Some(i) ==> i < usize::MAX,
    ensures
        r@ == gutter_text(line.old_index, line.new_index, width as nat),
{
    let mut s = number_column(line.old_index, width);
    s.append("  ");
    let right = number_column(line.new_index, width);
    s.append(right.as_str());
    s
}

/// The sign that marks a diff line.
pub fn change_sign(kind: ChangeKind) -> (r: &'static str)
    ensures
        r@ == match kind {
            ChangeKind::Delete => "-"@,
            ChangeKind::Insert => "+"@,
            ChangeKind::Equal => " "@,
        },
{
    match kind {
        ChangeKind::Delete => "-",
        ChangeKind::Insert => "+",
        ChangeKind::Equal => " ",
    }
}

/// The larger of `acc` and the line number of an index.
pub open spec fn widest(acc: nat, index: Option<usize>) -> nat {
    match index {
        Some(i) => if i + 1 > acc {
            (i + 1) as nat
        } else {
            acc
        },
        None => acc,
    }
}

/// The largest of `acc` and the line numbers of the lines.
pub open spec fn max_in_lines(acc: nat, lines: Seq<DiffLineView>) -> nat
    decreases lines.len(),
{
    if lines.len() == 0 {
        acc
    } else {
        widest(widest(max_in_lines(acc, lines.drop_last()), lines.last().1), lines.last().2)
    }
}

/// The largest line number of the hunks, and at least 1.
pub open spec fn max_in_hunks(hunks: Seq<Seq<DiffLineView>>) -> nat
    decreases hunks.len(),
{
    if hunks.len() == 0 {
        1
    } else {
        max_in_lines(max_in_hunks(hunks.drop_last()), hunks.last())
    }
}

/// No line index of the hunks is `usize::MAX`.
pub open spec fn hunks_bounded(hunks: Seq<Seq<DiffLineView>>) -> bool {
    forall|h: int, j: int|
        0 <= h < hunks.len() && 0 <= j < hunks[h].len() ==> (#[trigger] hunks[h][j].1 matches Some(
            o,
        ) ==> o < usize::MAX) && (hunks[h][j].2 matches Some(n) ==> n < usize::MAX)
}

/// A diff in hunks, with the gutter of every line.
pub struct RenderedDiff {
    pub hunks: Vec<Vec<DiffLine>>,
    pub gutters: Vec<Vec<String>>,
}

/// The diff from `original` to `replacement` in hunks, with the gutter of
/// every line, its line numbers aligned to the widest of the whole diff.
/// There is none only where a line index reaches `usize::MAX`.
pub fn render_diff(original: &str, replacement: &str) -> (r: Option<RenderedDiff>)
    ensures
        r is Some <==> hunks_bounded(line_diff_hunks(original@, replacement@)),
        r matches Some(d) ==> {
            let hs = line_diff_hunks(original@, replacement@);
            let width = decimal(max_in_hunks(hs)).len();
            &&& hunks_view(d.hunks@) == hs
            &&& d.gutters@.len() == hs.len()
            &&& forall|h: int|
                0 <= h < hs.len() ==> (#[trigger] d.gutters@[h])@.len() == hs[h].len()
            &&& forall|h: int, j: int|
                0 <= h < hs.len() && 0 <= j < hs[h].len() ==> (#[trigger] d.gutters@[h]@[j])@
                    == gutter_text(hs[h][j].1, hs[h][j].2, width)
        },
{
    let hunks = diff_hunks(original, replacement);
    let ghost hs = hunks_view(hunks@);
    let mut largest: usize = 1;
    let mut h: usize = 0;
    proof {
        assert(hs.take(0) =~= Seq::<Seq<DiffLineView>>::empty());
    }
    while h < hunks.len()
        invariant
            hs == hunks_view(hunks@),
            hs == line_diff_hunks(original@, replacement@),
            h <= hunks.len(),
            largest as nat == max_in_hunks(hs.take(h as int)),
            forall|a: int, j: int|
                0 <= a < h && 0 <= j < hs[a].len() ==> (#[trigger] hs[a][j].1 matches Some(o)
                    ==> o < usize::MAX) && (hs[a][j].2 matches Some(n) ==> n < usize::MAX),
        decreases hunks.len() - h,
    {
        let ghost base = largest as nat;
        let ghost line_views = hs[h as int];
        let mut j: usize = 0;
        proof {
            assert(line_views.take(0) =~= Seq::<DiffLineView>::empty());
        }
        while j < hunks[h].len()
            invariant
                hs == hunks_view(hunks@),
                hs == line_diff_hunks(original@, replacement@),
            hs == line_diff_hunks(original@, replacement@),
                h < hunks.len(),
                line_views == hs[h as int],
                line_views.len() == hunks@[h as int]@.len(),
                j <= hunks@[h as int]@.len(),
                largest as nat == max_in_lines(base, line_views.take(j as int)),
                forall|b: int|
                    0 <= b < j ==> (#[trigger] line_views[b].1 matches Some(o) ==> o < usize::MAX)
                        && (line_views[b].2 matches Some(n) ==> n < usize::MAX),
            decreases hunks@[h as int]@.len() - j,
        {
            proof {
                assert(line_views.take(j + 1).drop_last() =~= line_views.take(j as int));
            }
            match hunks[h][j].old_index {
                Some(o) => {
                    if o == usize::MAX {
                        proof {
                            assert(hs[h as int][j as int].1 == Some(o));
                        }
                        return None;
                    }
                    if o + 1 > largest {
                        largest = o + 1;
                    }
                },
                None => {},
            }
            match hunks[h][j].new_index {
                Some(n) => {
                    if n == usize::MAX {
                        proof {
                            assert(hs[h as int][j as int].2 == Some(n));
                        }
                        return None;
                    }
                    if n + 1 > largest {
                        largest = n + 1;
                    }
                },
                None => {},
            }
            j = j + 1;
        }
        proof {
            assert(line_views.take(j as int) =~= line_views);
            assert(hs.take(h + 1).drop_last() =~= hs.take(h as int));
        }
        h = h + 1;
    }
    proof {
        assert(hs.take(hunks.len() as int) =~= hs);
    }
    let d = decimal_text(largest);
    let width = d.unicode_len();
    let mut gutters: Vec<Vec<String>> = Vec::new();
    let mut h: usize = 0;
    while h < hunks.len()
        invariant
            hs == hunks_view(hunks@),
            hs == line_diff_hunks(original@, replacement@),
            hunks_bounded(hs),
            width as nat == decimal(max_in_hunks(hs)).len(),
            h <= hunks.len(),
            gutters@.len() == h,
            forall|a: int| 0 <= a < h ==> (#[trigger] gutters@[a])@.len() == hs[a].len(),
            forall|a: int, j: int|
                0 <= a < h && 0 <= j < hs[a].len() ==> (#[trigger] gutters@[a]@[j])@
                    == gutter_text(hs[a][j].1, hs[a][j].2, width as nat),
        decreases hunks.len() - h,
    {
        let mut row: Vec<String> = Vec::new();
        let mut j: usize = 0;
        while j < hunks[h].len()
            invariant
                hs == hunks_view(hunks@),
                hs == line_diff_hunks(original@, replacement@),
            hs == line_diff_hunks(original@, replacement@),
                hunks_bounded(hs),
                h < hunks.len(),
                j <= hunks@[h as int]@.len(),
                row@.len() == j,
                forall|b: int|
                    0 <= b < j ==> (#[trigger] row@[b])@ == gutter_text(
                        hs[h as int][b].1,
                        hs[h as int][b].2,
                        width as nat,
                    ),
            decreases hunks@[h as int]@.len() - j,
        {
            proof {
                assert(hs[h as int][j as int].1 == hunks@[h as int]@[j as int].old_index);
            }
            let g = change_gutter(&hunks[h][j], width);
            row.push(g);
            j = j + 1;
        }
        gutters.push(row);
        proof {
            assert forall|a: int, b: int|
                0 <= a < h + 1 && 0 <= b < hs[a].len() implies (#[trigger] gutters@[a]@[b])@
                == gutter_text(hs[a][b].1, hs[a][b].2, width as nat) by {
                if a < h {
                }
            }
        }
        h = h + 1;
    }
    Some(RenderedDiff { hunks, gutters })
}

} // verus!
