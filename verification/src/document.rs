//! A file's lines and what the filters made of them.

use vstd::prelude::*;

use crate::colour::Style;
use crate::filter::model::ActiveModel;
use crate::filter::{ActiveFilters, Verdict};
use crate::syntax::KindSet;
use crate::text;

verus! {

/// Which lines are shown.
#[derive(Debug, Clone, Copy, PartialEq, Eq, Structural)]
pub enum Mode {
    /// Every line that no filter removed.
    Dimmed,
    /// Only lines that a filter selected.
    FilteredOnly,
}

impl Default for Mode {
    /// Every line that no filter removed.
    fn default() -> (mode: Self)
        ensures
            mode == Mode::Dimmed,
    {
        Mode::Dimmed
    }
}

/// Whether a line is shown. A removed line never is. Where nothing selects
/// lines, none is hidden for not being selected.
pub open spec fn shows(mode: Mode, including: bool, verdict: Verdict) -> bool {
    match verdict {
        Verdict::Excluded => false,
        Verdict::Included(_) | Verdict::Context(_) => true,
        Verdict::Unmatched => mode == Mode::Dimmed || !including,
    }
}

/// The lines that are shown, in order.
pub open spec fn shown_lines(verdicts: Seq<Verdict>, mode: Mode, including: bool) -> Seq<usize>
    decreases verdicts.len(),
{
    if verdicts.len() == 0 {
        Seq::empty()
    } else {
        let before = shown_lines(verdicts.drop_last(), mode, including);
        if shows(mode, including, verdicts.last()) {
            before.push((verdicts.len() - 1) as usize)
        } else {
            before
        }
    }
}

/// Whether a filter in effect asks which definitions the lines start.
pub open spec fn asks_kinds(filters: ActiveModel) -> bool {
    exists|i: int|
        0 <= i < filters.filters.len() && #[trigger] filters.effective(i)
            && filters.filters[i].predicate is Definition
}

/// The kinds that were found, where any were.
pub open spec fn found_or_none(outcome: Option<Vec<KindSet>>) -> Seq<KindSet> {
    match outcome {
        Some(kinds) => kinds@,
        None => Seq::empty(),
    }
}

/// Whether a grammar may be asked of a document, where a filter wants it to be.
pub open spec fn may_be_asked<G: FnOnce(&String, &Vec<String>) -> Option<Vec<KindSet>>>(
    grammar: G,
    document: DocumentModel,
    filters: ActiveModel,
) -> bool {
    asks_kinds(filters) && document.kinds is None ==> forall|path: String, lines: Vec<String>|
        document.path == Some(path@) && text::texts(lines@) == document.lines
            ==> #[trigger] call_requires(grammar, (&path, &lines))
}

/// The kinds that a document's lines are decided with: those that are known
/// where any are or no filter asks for them, else what the grammar says of the
/// file.
pub open spec fn kinds_found<G: FnOnce(&String, &Vec<String>) -> Option<Vec<KindSet>>>(
    grammar: G,
    document: DocumentModel,
    filters: ActiveModel,
    kinds: Option<Seq<KindSet>>,
) -> bool {
    if !asks_kinds(filters) || document.kinds is Some {
        kinds == document.kinds
    } else if document.path is None {
        kinds == Some(Seq::<KindSet>::empty())
    } else {
        exists|path: String, lines: Vec<String>, outcome: Option<Vec<KindSet>>|
            {
                &&& path@ == document.path->Some_0
                &&& text::texts(lines@) == document.lines
                &&& #[trigger] call_ensures(grammar, (&path, &lines), outcome)
                &&& kinds == Some(found_or_none(outcome))
            }
    }
}

/// A document as a value.
#[verifier::ext_equal]
pub struct DocumentModel {
    pub lines: Seq<Seq<char>>,
    pub verdicts: Seq<Verdict>,
    /// Whether something selected lines when they were evaluated.
    pub including: bool,
    pub mode: Mode,
    pub visible: Seq<usize>,
    pub generation: u64,
    pub path: Option<Seq<char>>,
    pub kinds: Option<Seq<KindSet>>,
}

impl DocumentModel {
    /// What holds of a document at all times: there is a verdict for every
    /// line, and the lines shown are lines of it, in order.
    pub open spec fn well_formed(self) -> bool {
        &&& self.verdicts.len() == self.lines.len()
        &&& self.lines.len() <= usize::MAX
        &&& forall|i: int| 0 <= i < self.visible.len() ==> (#[trigger] self.visible[i]) < self.lines.len()
        &&& forall|i: int, j: int|
            0 <= i < j < self.visible.len() ==> (#[trigger] self.visible[i]) < (
            #[trigger] self.visible[j])
    }

    /// A document of these lines that nothing has been decided of.
    pub open spec fn fresh(lines: Seq<Seq<char>>, path: Option<Seq<char>>) -> DocumentModel {
        DocumentModel {
            lines,
            verdicts: Seq::new(lines.len(), |i: int| Verdict::Unmatched),
            including: false,
            mode: Mode::Dimmed,
            visible: Seq::empty(),
            generation: 0,
            path,
            kinds: None,
        }
    }

    /// The document with other lines shown. The generation moves where that
    /// changes anything.
    pub open spec fn showing(self, visible: Seq<usize>) -> DocumentModel {
        DocumentModel {
            visible,
            generation: if visible == self.visible {
                self.generation
            } else {
                self.generation.wrapping_add(1)
            },
            ..self
        }
    }

    /// The document with the lines shown that its verdicts and its mode ask
    /// for.
    pub open spec fn recomputed(self) -> DocumentModel {
        self.showing(shown_lines(self.verdicts, self.mode, self.including))
    }

    /// The kinds of definition that the line at `row` starts, as far as known.
    pub open spec fn kinds_at(self, row: int) -> KindSet {
        match self.kinds {
            Some(kinds) => if row < kinds.len() {
                kinds[row]
            } else {
                KindSet::none()
            },
            None => KindSet::none(),
        }
    }

    /// The document as the filters decide it.
    pub open spec fn evaluated(self, filters: ActiveModel) -> DocumentModel {
        (DocumentModel {
            verdicts: Seq::new(
                self.lines.len(),
                |i: int| filters.verdict(self.lines[i], self.kinds_at(i)),
            ),
            including: filters.any_including(),
            ..self
        }).recomputed()
    }

    /// The rows from `start` up to `end`, as far as they are there.
    pub open spec fn window(self, start: int, end: int) -> Seq<usize> {
        let last = if end < self.visible.len() {
            end
        } else {
            self.visible.len() as int
        };
        let first = if start < last {
            start
        } else {
            last
        };
        self.visible.subrange(first, last)
    }

    /// Whether the line behind the one in a row is hidden.
    pub open spec fn ends_group(self, row: int) -> bool {
        if row + 1 < self.visible.len() {
            self.visible[row + 1] != self.visible[row] + 1
        } else {
            self.visible[row] + 1 < self.lines.len()
        }
    }
}

/// A file's lines, with a verdict on each and the lines that are shown.
#[derive(Debug)]
pub struct Document {
    lines: Vec<String>,
    verdicts: Vec<Verdict>,
    anything_including: bool,
    mode: Mode,
    visible: Vec<usize>,
    /// What the next lines to show are gathered in.
    scratch: Vec<usize>,
    /// Moves just where the lines shown change.
    generation: u64,
    path: Option<String>,
    kinds: Option<Vec<KindSet>>,
}

impl View for Document {
    type V = DocumentModel;

    closed spec fn view(&self) -> DocumentModel {
        DocumentModel {
            lines: text::texts(self.lines@),
            verdicts: self.verdicts@,
            including: self.anything_including,
            mode: self.mode,
            visible: self.visible@,
            generation: self.generation,
            path: text::option_text(self.path),
            kinds: match self.kinds {
                Some(kinds) => Some(kinds@),
                None => None,
            },
        }
    }
}

/// Whether two lists of rows are the same.
fn same_rows(left: &Vec<usize>, right: &Vec<usize>) -> (equal: bool)
    ensures
        equal == (left@ == right@),
{
    if left.len() != right.len() {
        return false;
    }
    let mut i: usize = 0;
    while i < left.len()
        invariant
            left@.len() == right@.len(),
            i <= left@.len(),
            forall|j: int| 0 <= j < i ==> left@[j] == right@[j],
        decreases left@.len() - i,
    {
        if left[i] != right[i] {
            assert(left@[i as int] != right@[i as int]);
            return false;
        }
        i += 1;
    }
    assert(left@ =~= right@);
    true
}

/// Whether a line with this verdict is shown.
fn is_shown(mode: Mode, including: bool, verdict: Verdict) -> (yes: bool)
    ensures
        yes == shows(mode, including, verdict),
{
    match verdict {
        Verdict::Excluded => false,
        Verdict::Included(_) | Verdict::Context(_) => true,
        Verdict::Unmatched => match mode {
            Mode::Dimmed => true,
            Mode::FilteredOnly => !including,
        },
    }
}

/// The lines shown are lines, in order.
pub proof fn shown_lines_ascend(verdicts: Seq<Verdict>, mode: Mode, including: bool)
    requires
        verdicts.len() <= usize::MAX,
    ensures
        ({
            let shown = shown_lines(verdicts, mode, including);
            &&& forall|i: int| 0 <= i < shown.len() ==> (#[trigger] shown[i]) < verdicts.len()
            &&& forall|i: int, j: int|
                0 <= i < j < shown.len() ==> (#[trigger] shown[i]) < (#[trigger] shown[j])
        }),
    decreases verdicts.len(),
{
    if verdicts.len() > 0 {
        shown_lines_ascend(verdicts.drop_last(), mode, including);
        let before = shown_lines(verdicts.drop_last(), mode, including);
        let shown = shown_lines(verdicts, mode, including);
        assert forall|i: int| 0 <= i < before.len() implies (#[trigger] shown[i]) == before[i]
            && shown[i] < verdicts.len() - 1 by {
            assert(before[i] < verdicts.drop_last().len());
        }
        assert(before.len() < shown.len() ==> shown[before.len() as int] == verdicts.len() - 1);
    }
}

impl Document {
    /// What holds of a document at all times.
    pub open spec fn wf(&self) -> bool {
        self@.well_formed()
    }

    /// A document of these lines.
    pub fn new(lines: Vec<String>) -> (document: Self)
        ensures
            document.wf(),
            document@ == DocumentModel::fresh(text::texts(lines@), None),
    {
        let ghost given = text::texts(lines@);
        let mut verdicts: Vec<Verdict> = Vec::new();
        let mut i: usize = 0;
        let count: usize = lines.len();
        while i < count
            invariant
                i <= count,
                verdicts@ =~= Seq::new(i as nat, |j: int| Verdict::Unmatched),
            decreases count - i,
        {
            verdicts.push(Verdict::Unmatched);
            i += 1;
        }
        let document = Document {
            lines,
            verdicts,
            anything_including: false,
            mode: Mode::Dimmed,
            visible: Vec::new(),
            scratch: Vec::new(),
            generation: 0,
            path: None,
            kinds: None,
        };
        assert(document@ =~= DocumentModel::fresh(given, None));
        document
    }

    /// A document of the lines of a file.
    pub fn for_file(path: &str, lines: Vec<String>) -> (document: Self)
        ensures
            document.wf(),
            document@ == DocumentModel::fresh(text::texts(lines@), Some(path@)),
    {
        let ghost given = text::texts(lines@);
        let mut document = Document::new(lines);
        document.path = Some(path.to_owned());
        assert(document@ =~= DocumentModel::fresh(given, Some(path@)));
        document
    }

    /// The lines.
    pub fn lines(&self) -> (lines: &Vec<String>)
        ensures
            text::texts(lines@) == self@.lines,
    {
        &self.lines
    }

    /// The verdict on every line.
    pub fn verdicts(&self) -> (verdicts: &Vec<Verdict>)
        ensures
            verdicts@ == self@.verdicts,
    {
        &self.verdicts
    }

    /// The file the lines are from, where they are from one.
    pub fn path(&self) -> (path: Option<&str>)
        ensures
            text::option_str(path) == self@.path,
    {
        match &self.path {
            Some(path) => Some(path.as_str()),
            None => None,
        }
    }

    /// Whether the definitions that the lines start have to be found before
    /// the filters can decide: a filter asks for them, and they are not known.
    pub fn wants_kinds(&self, filters: &ActiveFilters) -> (yes: bool)
        requires
            filters.wf(),
        ensures
            yes == (self@.kinds is None && asks_kinds(filters@)),
    {
        self.kinds.is_none() && filters.needs_kinds()
    }

    /// Says which definitions the lines start. No kinds at all is an answer
    /// too: no line starts any.
    pub fn set_kinds(&mut self, kinds: Vec<KindSet>)
        requires
            old(self).wf(),
        ensures
            final(self).wf(),
            final(self)@ == (DocumentModel { kinds: Some(kinds@), ..old(self)@ }),
    {
        self.kinds = Some(kinds);
        assert(self@ =~= (DocumentModel { kinds: self@.kinds, ..old(self)@ }));
    }

    /// Decides every line anew, once `grammar` has said which definitions the
    /// lines of the file start. It is asked once at most, and only where a filter
    /// will read the answer; lines that no file stands behind start none, and
    /// neither do those of a file that no grammar knows.
    pub fn evaluate_with<G: FnOnce(&String, &Vec<String>) -> Option<Vec<KindSet>>>(
        &mut self,
        filters: &ActiveFilters,
        grammar: G,
    )
        requires
            old(self).wf(),
            filters.wf(),
            may_be_asked(grammar, old(self)@, filters@),
        ensures
            final(self).wf(),
            exists|kinds: Option<Seq<KindSet>>| #[trigger]
                kinds_found(grammar, old(self)@, filters@, kinds) && final(self)@ == (
                DocumentModel { kinds, ..old(self)@ }).evaluated(filters@),
    {
        let ghost before = self@;
        if self.wants_kinds(filters) {
            let kinds: Vec<KindSet> = match &self.path {
                Some(path) => {
                    let ghost (asked, lines) = (*path, self.lines);
                    assert(asked@ == before.path->Some_0);
                    assert(text::texts(lines@) == before.lines);
                    assert(call_requires(grammar, (&asked, &lines)));
                    let outcome = grammar(path, &self.lines);
                    assert(call_ensures(grammar, (&asked, &lines), outcome));
                    let found = match outcome {
                        Some(found) => found,
                        None => Vec::new(),
                    };
                    assert(found@ =~= found_or_none(outcome));
                    found
                },
                None => Vec::new(),
            };
            let ghost known: Option<Seq<KindSet>> = Some(kinds@);
            self.set_kinds(kinds);
            assert(kinds_found(grammar, before, filters@, known)) by {
                if before.path is None {
                    assert(kinds@ =~= Seq::<KindSet>::empty());
                }
            }
            self.evaluate(filters);
        } else {
            assert(kinds_found(grammar, before, filters@, before.kinds));
            assert(before =~= (DocumentModel { kinds: before.kinds, ..before }));
            self.evaluate(filters);
        }
    }

    /// Decides every line anew. Called where the lines or the filters changed.
    pub fn evaluate(&mut self, filters: &ActiveFilters)
        requires
            old(self).wf(),
            filters.wf(),
        ensures
            final(self).wf(),
            final(self)@ == old(self)@.evaluated(filters@),
    {
        let ghost before = self@;
        let ghost decided = Seq::new(
            before.lines.len(),
            |i: int| filters@.verdict(before.lines[i], before.kinds_at(i)),
        );
        self.verdicts.clear();
        let mut row: usize = 0;
        while row < self.lines.len()
            invariant
                filters.wf(),
                before == old(self)@,
                before.well_formed(),
                decided == Seq::new(
                    before.lines.len(),
                    |i: int| filters@.verdict(before.lines[i], before.kinds_at(i)),
                ),
                self@ == (DocumentModel { verdicts: self@.verdicts, ..before }),
                row <= before.lines.len(),
                self@.verdicts =~= decided.take(row as int),
            decreases self.lines@.len() - row,
        {
            let kinds: KindSet = match &self.kinds {
                Some(kinds) => if row < kinds.len() {
                    kinds[row]
                } else {
                    KindSet::empty()
                },
                None => KindSet::empty(),
            };
            assert(kinds == before.kinds_at(row as int));
            assert(before.lines[row as int] == self.lines@[row as int]@);
            let ghost current = self@;
            let verdict = filters.verdict(self.lines[row].as_str(), kinds);
            assert(verdict == decided[row as int]);
            self.verdicts.push(verdict);
            assert(self@.verdicts =~= current.verdicts.push(verdict));
            row += 1;
        }
        assert(decided.take(row as int) =~= decided);
        self.anything_including = filters.any_including();
        self.recompute_visible();
    }

    /// The number that moves just where the lines shown change.
    pub fn generation(&self) -> (generation: u64)
        ensures
            generation == self@.generation,
    {
        self.generation
    }

    /// Gathers the lines to show anew, from the verdicts there are and the
    /// mode, without asking the filters.
    pub fn recompute_visible(&mut self)
        requires
            old(self)@.verdicts.len() == old(self)@.lines.len(),
        ensures
            final(self).wf(),
            final(self)@ == old(self)@.recomputed(),
    {
        let ghost before = self@;
        let count: usize = self.verdicts.len();
        self.scratch.clear();
        let mut row: usize = 0;
        assert(self.scratch@ =~= shown_lines(before.verdicts.take(0), before.mode, before.including));
        while row < self.verdicts.len()
            invariant
                before == old(self)@,
                self@ == before,
                row <= before.verdicts.len(),
                self.scratch@ == shown_lines(
                    before.verdicts.take(row as int),
                    before.mode,
                    before.including,
                ),
            decreases self.verdicts@.len() - row,
        {
            proof {
                assert(before.verdicts.take(row + 1).drop_last() =~= before.verdicts.take(
                    row as int,
                ));
                assert(before.verdicts.take(row + 1).last() == before.verdicts[row as int]);
            }
            if is_shown(self.mode, self.anything_including, self.verdicts[row]) {
                self.scratch.push(row);
            }
            row += 1;
        }
        assert(before.verdicts.take(row as int) =~= before.verdicts);
        proof {
            shown_lines_ascend(before.verdicts, before.mode, before.including);
        }
        if !same_rows(&self.scratch, &self.visible) {
            core::mem::swap(&mut self.scratch, &mut self.visible);
            self.generation = self.generation.wrapping_add(1);
        }
        assert(self@ =~= before.recomputed());
    }

    /// One style for every line, or none where the line is left alone.
    pub fn line_styles(&self, filters: &ActiveFilters) -> (styles: Vec<Option<Style>>)
        requires
            filters.wf(),
        ensures
            styles@ == Seq::new(
                self@.verdicts.len(),
                |i: int| filters@.style_for(self@.verdicts[i]),
            ),
    {
        let ghost all = Seq::new(
            self@.verdicts.len(),
            |i: int| filters@.style_for(self@.verdicts[i]),
        );
        let mut styles: Vec<Option<Style>> = Vec::new();
        let mut row: usize = 0;
        while row < self.verdicts.len()
            invariant
                filters.wf(),
                all == Seq::new(
                    self@.verdicts.len(),
                    |i: int| filters@.style_for(self@.verdicts[i]),
                ),
                row <= self@.verdicts.len(),
                styles@ =~= all.take(row as int),
            decreases self.verdicts@.len() - row,
        {
            styles.push(filters.style_for(self.verdicts[row]));
            row += 1;
        }
        assert(all.take(row as int) =~= all);
        styles
    }

    /// Which lines are shown.
    pub fn mode(&self) -> (mode: Mode)
        ensures
            mode == self@.mode,
    {
        self.mode
    }

    /// Says which lines are to be shown, from the next time they are gathered.
    pub fn set_mode(&mut self, mode: Mode)
        requires
            old(self).wf(),
        ensures
            final(self).wf(),
            final(self)@ == (DocumentModel { mode, ..old(self)@ }),
    {
        self.mode = mode;
        assert(self@ =~= (DocumentModel { mode, ..old(self)@ }));
    }

    /// The lines shown, in order.
    pub fn visible(&self) -> (visible: &Vec<usize>)
        ensures
            visible@ == self@.visible,
    {
        &self.visible
    }

    /// The texts of the lines shown.
    pub fn visible_lines(&self) -> (lines: Vec<String>)
        requires
            self.wf(),
        ensures
            text::texts(lines@) == Seq::new(
                self@.visible.len(),
                |i: int| self@.lines[self@.visible[i] as int],
            ),
    {
        let lines = self.visible_lines_range(0, self.visible.len());
        assert(self@.window(0, self@.visible.len() as int) =~= self@.visible);
        assert(text::texts(lines@) =~= Seq::new(
            self@.visible.len(),
            |i: int| self@.lines[self@.visible[i] as int],
        ));
        lines
    }

    /// The texts of the rows from `start` up to `end`, as far as they are
    /// there.
    pub fn visible_lines_range(&self, start: usize, end: usize) -> (lines: Vec<String>)
        requires
            self.wf(),
        ensures
            text::texts(lines@) == Seq::new(
                self@.window(start as int, end as int).len(),
                |i: int| self@.lines[self@.window(start as int, end as int)[i] as int],
            ),
    {
        let window = self.window(start, end);
        let ghost all = Seq::new(window@.len(), |i: int| self@.lines[window@[i] as int]);
        let mut lines: Vec<String> = Vec::new();
        let mut i: usize = 0;
        while i < window.len()
            invariant
                self.wf(),
                all == Seq::new(window@.len(), |i: int| self@.lines[window@[i] as int]),
                forall|k: int| 0 <= k < window@.len() ==> window@[k] < self@.lines.len(),
                i <= window@.len(),
                text::texts(lines@) =~= all.take(i as int),
            decreases window@.len() - i,
        {
            let line = self.lines[window[i]].clone();
            assert(all[i as int] == line@);
            proof {
                text::texts_push(lines@, line);
                assert(all.take(i + 1) =~= all.take(i as int).push(all[i as int]));
            }
            lines.push(line);
            i += 1;
        }
        assert(all.take(i as int) =~= all);
        lines
    }

    /// One style for every line shown.
    pub fn visible_styles(&self, filters: &ActiveFilters) -> (styles: Vec<Option<Style>>)
        requires
            self.wf(),
            filters.wf(),
        ensures
            styles@ == Seq::new(
                self@.visible.len(),
                |i: int| filters@.style_for(self@.verdicts[self@.visible[i] as int]),
            ),
    {
        let styles = self.visible_styles_range(filters, 0, self.visible.len());
        assert(self@.window(0, self@.visible.len() as int) =~= self@.visible);
        assert(styles@ =~= Seq::new(
            self@.visible.len(),
            |i: int| filters@.style_for(self@.verdicts[self@.visible[i] as int]),
        ));
        styles
    }

    /// One style for every row from `start` up to `end`, as far as they are
    /// there.
    pub fn visible_styles_range(&self, filters: &ActiveFilters, start: usize, end: usize) -> (styles:
        Vec<Option<Style>>)
        requires
            self.wf(),
            filters.wf(),
        ensures
            styles@ == Seq::new(
                self@.window(start as int, end as int).len(),
                |i: int|
                    filters@.style_for(
                        self@.verdicts[self@.window(start as int, end as int)[i] as int],
                    ),
            ),
    {
        let window = self.window(start, end);
        let ghost all = Seq::new(
            window@.len(),
            |i: int| filters@.style_for(self@.verdicts[window@[i] as int]),
        );
        let mut styles: Vec<Option<Style>> = Vec::new();
        let mut i: usize = 0;
        while i < window.len()
            invariant
                self.wf(),
                filters.wf(),
                all == Seq::new(
                    window@.len(),
                    |i: int| filters@.style_for(self@.verdicts[window@[i] as int]),
                ),
                forall|k: int| 0 <= k < window@.len() ==> window@[k] < self@.lines.len(),
                i <= window@.len(),
                styles@ =~= all.take(i as int),
            decreases window@.len() - i,
        {
            styles.push(filters.style_for(self.verdicts[window[i]]));
            i += 1;
        }
        assert(all.take(i as int) =~= all);
        styles
    }

    /// The rows from `start` up to `end`, both brought back to what is there.
    pub fn window(&self, start: usize, end: usize) -> (window: Vec<usize>)
        requires
            self.wf(),
        ensures
            window@ == self@.window(start as int, end as int),
            forall|k: int| 0 <= k < window@.len() ==> window@[k] < self@.lines.len(),
    {
        let last: usize = if end < self.visible.len() {
            end
        } else {
            self.visible.len()
        };
        let first: usize = if start < last {
            start
        } else {
            last
        };
        let mut window: Vec<usize> = Vec::new();
        let mut row: usize = first;
        while row < last
            invariant
                first <= row <= last <= self@.visible.len(),
                window@ =~= self@.visible.subrange(first as int, row as int),
            decreases last - row,
        {
            window.push(self.visible[row]);
            row += 1;
        }
        assert forall|k: int| 0 <= k < window@.len() implies window@[k] < self@.lines.len() by {
            assert(self@.visible[first + k] < self@.lines.len());
        }
        window
    }

    /// For every line shown, whether the line behind it is hidden.
    pub fn visible_group_ends(&self) -> (ends: Vec<bool>)
        requires
            self.wf(),
        ensures
            ends@ == Seq::new(self@.visible.len(), |row: int| self@.ends_group(row)),
    {
        let ends = self.visible_group_ends_range(0, self.visible.len());
        assert(ends@ =~= Seq::new(self@.visible.len(), |row: int| self@.ends_group(row)));
        ends
    }

    /// For every row from `start` up to `end`, as far as they are there,
    /// whether the line behind it is hidden. Where the rows stop has no say in
    /// it.
    pub fn visible_group_ends_range(&self, start: usize, end: usize) -> (ends: Vec<bool>)
        requires
            self.wf(),
        ensures
            ends@ == Seq::new(
                self@.window(start as int, end as int).len(),
                |i: int| self@.ends_group(start + i),
            ),
    {
        let last: usize = if end < self.visible.len() {
            end
        } else {
            self.visible.len()
        };
        let first: usize = if start < last {
            start
        } else {
            last
        };
        let ghost all = Seq::new((last - first) as nat, |i: int| self@.ends_group(first + i));
        let mut ends: Vec<bool> = Vec::new();
        let mut row: usize = first;
        while row < last
            invariant
                self.wf(),
                all == Seq::new((last - first) as nat, |i: int| self@.ends_group(first + i)),
                first <= row <= last <= self@.visible.len(),
                ends@ =~= all.take(row - first),
            decreases last - row,
        {
            let source = self.visible[row];
            assert(self@.visible[row as int] < self@.lines.len());
            let gap = if row + 1 < self.visible.len() {
                self.visible[row + 1] - source != 1
            } else {
                self.lines.len() - source > 1
            };
            assert(gap == all[row - first]);
            ends.push(gap);
            row += 1;
        }
        assert(all.take(last - first) =~= all);
        assert(ends@ =~= Seq::new(
            self@.window(start as int, end as int).len(),
            |i: int| self@.ends_group(start + i),
        ));
        ends
    }

    /// The place of `source` among the lines shown, and whether it is one.
    fn search(&self, source: usize) -> (found: (usize, bool))
        requires
            self.wf(),
        ensures
            found.0 <= self@.visible.len(),
            found.1 ==> found.0 < self@.visible.len() && self@.visible[found.0 as int] == source,
            forall|i: int| 0 <= i < found.0 ==> (#[trigger] self@.visible[i]) < source,
            !found.1 ==> forall|i: int|
                found.0 <= i < self@.visible.len() ==> (#[trigger] self@.visible[i]) > source,
    {
        let mut low: usize = 0;
        let mut high: usize = self.visible.len();
        while low < high
            invariant
                self.wf(),
                low <= high <= self@.visible.len(),
                forall|i: int| 0 <= i < low ==> (#[trigger] self@.visible[i]) < source,
                forall|i: int|
                    high <= i < self@.visible.len() ==> (#[trigger] self@.visible[i]) > source,
            decreases high - low,
        {
            let middle: usize = low + (high - low) / 2;
            let row = self.visible[middle];
            assert(self@.visible[middle as int] == row);
            if row == source {
                assert forall|i: int| 0 <= i < middle implies (#[trigger] self@.visible[i])
                    < source by {
                    assert(self@.visible[i] < self@.visible[middle as int]);
                }
                return (middle, true);
            }
            if row < source {
                assert forall|i: int| 0 <= i <= middle implies (#[trigger] self@.visible[i])
                    < source by {
                    assert(i < middle ==> self@.visible[i] < self@.visible[middle as int]);
                }
                low = middle + 1;
            } else {
                assert forall|i: int| middle <= i < self@.visible.len() implies (
                #[trigger] self@.visible[i]) > source by {
                    assert(middle < i ==> self@.visible[middle as int] < self@.visible[i]);
                }
                high = middle;
            }
        }
        (low, false)
    }

    /// The row in which a line is shown, where it is.
    pub fn visible_position(&self, source: usize) -> (row: Option<usize>)
        requires
            self.wf(),
        ensures
            match row {
                Some(row) => row < self@.visible.len() && self@.visible[row as int] == source,
                None => !self@.visible.contains(source),
            },
    {
        let (row, found) = self.search(source);
        if found {
            Some(row)
        } else {
            assert forall|i: int| 0 <= i < self@.visible.len() implies self@.visible[i] != source by {
                assert(i < row ==> self@.visible[i] < source);
                assert(i >= row ==> self@.visible[i] > source);
            }
            None
        }
    }

    /// The line that is shown in a row, where there is the row.
    pub fn source_at(&self, visible_row: usize) -> (source: Option<usize>)
        ensures
            source == if visible_row < self@.visible.len() {
                Some(self@.visible[visible_row as int])
            } else {
                None
            },
    {
        if visible_row < self.visible.len() {
            Some(self.visible[visible_row])
        } else {
            None
        }
    }

    /// The nearest line shown at `source` or behind it, or else the last one
    /// before it.
    pub fn nearest_visible(&self, source: usize) -> (nearest: Option<usize>)
        requires
            self.wf(),
        ensures
            match nearest {
                Some(nearest) => {
                    &&& self@.visible.contains(nearest)
                    &&& nearest >= source ==> forall|i: int|
                        0 <= i < self@.visible.len() && (#[trigger] self@.visible[i]) >= source
                            ==> nearest <= self@.visible[i]
                    &&& nearest < source ==> forall|i: int|
                        0 <= i < self@.visible.len() ==> (#[trigger] self@.visible[i]) <= nearest
                },
                None => self@.visible.len() == 0,
            },
    {
        let count: usize = self.visible.len();
        let (row, found) = self.search(source);
        if found {
            return Some(source);
        }
        if row < count {
            let nearest = self.visible[row];
            assert(self@.visible[row as int] == nearest);
            assert(self@.visible.contains(nearest));
            assert forall|i: int|
                0 <= i < self@.visible.len() && (#[trigger] self@.visible[i])
                    >= source implies nearest <= self@.visible[i] by {
                assert(row < i ==> self@.visible[row as int] < self@.visible[i]);
            }
            return Some(nearest);
        }
        if count > 0 {
            let nearest = self.visible[count - 1];
            assert(self@.visible[count - 1] == nearest);
            assert(self@.visible.contains(nearest));
            assert forall|i: int| 0 <= i < self@.visible.len() implies (#[trigger] self@.visible[i])
                <= nearest by {
                assert(i < count - 1 ==> self@.visible[i] < self@.visible[count - 1]);
            }
            return Some(nearest);
        }
        None
    }
}

// ---------------------------------------------------------------------------
// Reading a file

/// How much of the head of a file is looked at before it is read as text.
pub const BINARY_SNIFF_BYTES: usize = 8192;

/// What is said of a file that holds no text.
pub const BINARY_FILE: &'static str = "binary file";

/// What is said of something that is neither a file nor a directory.
pub const NOT_A_FILE: &'static str = "not a regular file";

/// What is said of a directory.
pub const IS_A_DIRECTORY: &'static str = "is a directory";

/// What a path leads to.
#[derive(Debug, Clone, Copy, PartialEq, Eq, Structural)]
pub enum Target {
    Directory,
    File,
    /// A pipe, a socket or a device.
    Other,
}

/// Why a file was not read.
#[derive(Debug, Clone, PartialEq, Eq)]
pub enum ReadError {
    /// The path leads to a directory.
    IsADirectory,
    /// The path leads to something that has no end to read to.
    NotAFile,
    /// The file holds no text.
    Binary,
    /// There is nothing at the path.
    NotFound,
    /// The path may not be read.
    PermissionDenied,
    /// The system's own words.
    Os(String),
}

/// Refuses what would be read wrongly before it is opened. A path that leads
/// nowhere is left for opening it to refuse.
pub fn refuse_unreadable(target: Option<Target>) -> (readable: Result<(), ReadError>)
    ensures
        match target {
            Some(Target::Directory) => readable matches Err(ReadError::IsADirectory),
            Some(Target::Other) => readable matches Err(ReadError::NotAFile),
            Some(Target::File) | None => readable is Ok,
        },
{
    match target {
        Some(Target::Directory) => Err(ReadError::IsADirectory),
        Some(Target::Other) => Err(ReadError::NotAFile),
        Some(Target::File) | None => Ok(()),
    }
}

/// Whether an error is the refusal of a file that holds no text.
pub fn is_binary(error: &ReadError) -> (yes: bool)
    ensures
        yes == (error is Binary),
{
    match error {
        ReadError::Binary => true,
        _ => false,
    }
}

/// The order of the bytes in a unit of UTF-16.
#[derive(Debug, Clone, Copy, PartialEq, Eq, Structural)]
pub enum Endian {
    Little,
    Big,
}

/// What the head of a file says of it.
#[derive(Debug, Clone, Copy, PartialEq, Eq, Structural)]
pub enum Sniff {
    /// No zero byte: text.
    Text,
    /// A byte order mark of UTF-16: text in which zero bytes belong.
    Utf16(Endian),
    /// A zero byte with nothing to explain it.
    Binary,
}

/// What the head of a file says of it.
pub open spec fn sniffed(head: Seq<u8>) -> Sniff {
    if head.len() >= 2 && head[0] == 0xff && head[1] == 0xfe {
        Sniff::Utf16(Endian::Little)
    } else if head.len() >= 2 && head[0] == 0xfe && head[1] == 0xff {
        Sniff::Utf16(Endian::Big)
    } else if head.contains(0) {
        Sniff::Binary
    } else {
        Sniff::Text
    }
}

/// Looks at the head of a file.
pub fn sniff(head: &[u8]) -> (verdict: Sniff)
    ensures
        verdict == sniffed(head@),
{
    if head.len() >= 2 && head[0] == 0xff && head[1] == 0xfe {
        return Sniff::Utf16(Endian::Little);
    }
    if head.len() >= 2 && head[0] == 0xfe && head[1] == 0xff {
        return Sniff::Utf16(Endian::Big);
    }
    let mut i: usize = 0;
    while i < head.len()
        invariant
            !(head@.len() >= 2 && head@[0] == 0xff && head@[1] == 0xfe),
            !(head@.len() >= 2 && head@[0] == 0xfe && head@[1] == 0xff),
            i <= head@.len(),
            forall|j: int| 0 <= j < i ==> head@[j] != 0,
        decreases head@.len() - i,
    {
        if head[i] == 0 {
            assert(head@[i as int] == 0);
            return Sniff::Binary;
        }
        i += 1;
    }
    Sniff::Text
}

/// The text of a sequence of UTF-16 units. A surrogate without its other half
/// becomes a replacement character.
pub open spec fn utf16_text(units: Seq<u16>) -> Seq<char>
    decreases units.len(),
{
    if units.len() == 0 {
        Seq::empty()
    } else if !(0xd800 <= units[0] <= 0xdfff) {
        seq![units[0] as char] + utf16_text(units.skip(1))
    } else if units[0] < 0xdc00 && units.len() > 1 && 0xdc00 <= units[1] <= 0xdfff {
        seq![(0x10000 + (units[0] - 0xd800) * 0x400 + (units[1] - 0xdc00)) as char] + utf16_text(
            units.skip(2),
        )
    } else {
        seq!['\u{fffd}'] + utf16_text(units.skip(1))
    }
}

/// `String::from_utf16_lossy`: the text of UTF-16 units, with a replacement
/// character for each surrogate without its other half.
#[verifier::external_body]
fn utf16_lossy(units: &Vec<u16>) -> (decoded: String)
    ensures
        decoded@ == utf16_text(units@),
{
    String::from_utf16_lossy(units)
}

/// The text of bytes that are not UTF-8.
pub uninterp spec fn replaced_text(bytes: Seq<u8>) -> Seq<char>;

/// The text of bytes. Bytes of UTF-8 have the text they are the encoding of.
pub open spec fn utf8_text(bytes: Seq<u8>) -> Seq<char> {
    if vstd::utf8::valid_utf8(bytes) {
        vstd::utf8::decode_utf8(bytes)
    } else {
        replaced_text(bytes)
    }
}

/// `String::from_utf8_lossy`: bytes of UTF-8 have the text they are the
/// encoding of; of other bytes, what is not UTF-8 is replaced.
#[verifier::external_body]
pub(crate) fn utf8_lossy(bytes: &Vec<u8>) -> (decoded: String)
    ensures
        !vstd::utf8::valid_utf8(bytes@) ==> decoded@ == replaced_text(bytes@),
        vstd::utf8::valid_utf8(bytes@) ==> decoded@ == vstd::utf8::decode_utf8(bytes@),
{
    String::from_utf8_lossy(bytes).into_owned()
}

/// A text without the line ends at its end.
pub open spec fn without_line_end(line: Seq<char>) -> Seq<char>
    decreases line.len(),
{
    if line.len() > 0 && (line.last() == '\n' || line.last() == '\r') {
        without_line_end(line.drop_last())
    } else {
        line
    }
}

/// The lines of a text from `i` on, without their ends. A text that ends in a
/// line end has no empty line behind it.
pub open spec fn text_lines(whole: Seq<char>, i: int) -> Seq<Seq<char>>
    decreases whole.len() - i + 1,
{
    proof {
        text::next_at_is_ahead(whole, '\n', i);
    }
    let end = text::next_at(whole, '\n', i);
    if i >= whole.len() {
        Seq::empty()
    } else if end >= whole.len() {
        seq![without_line_end(whole.skip(i))]
    } else {
        seq![without_line_end(whole.subrange(i, end + 1))] + text_lines(whole, end + 1)
    }
}

/// The place of the first line feed from `i` on, or the end.
pub open spec fn line_feed_from(bytes: Seq<u8>, i: int) -> int
    decreases bytes.len() - i,
{
    if i >= bytes.len() {
        bytes.len() as int
    } else if bytes[i] == 10 {
        i
    } else {
        line_feed_from(bytes, i + 1)
    }
}

/// A line feed is found at `i` or behind it, and not behind the end.
pub proof fn line_feed_is_ahead(bytes: Seq<u8>, i: int)
    ensures
        i <= bytes.len() ==> i <= line_feed_from(bytes, i) <= bytes.len(),
        i <= line_feed_from(bytes, i) < bytes.len() ==> bytes[line_feed_from(bytes, i)] == 10,
        forall|j: int| i <= j < line_feed_from(bytes, i) && 0 <= j < bytes.len() ==> bytes[j] != 10,
    decreases bytes.len() - i,
{
    if i < bytes.len() && bytes[i] != 10 {
        line_feed_is_ahead(bytes, i + 1);
    }
}

/// The text of one line's bytes, without its end.
pub open spec fn byte_line(bytes: Seq<u8>) -> Seq<char> {
    without_line_end(utf8_text(bytes))
}

/// The lines of bytes from `i` on. Each line is decoded for itself, so that
/// bytes that are no text cost no other line.
pub open spec fn byte_lines(bytes: Seq<u8>, i: int) -> Seq<Seq<char>>
    decreases bytes.len() - i + 1,
{
    proof {
        line_feed_is_ahead(bytes, i);
    }
    let end = line_feed_from(bytes, i);
    if i >= bytes.len() {
        Seq::empty()
    } else if end >= bytes.len() {
        seq![byte_line(bytes.skip(i))]
    } else {
        seq![byte_line(bytes.subrange(i, end + 1))] + byte_lines(bytes, end + 1)
    }
}

/// The units of UTF-16 in bytes. An odd byte at the end becomes a replacement
/// character.
pub open spec fn utf16_units(bytes: Seq<u8>, endian: Endian) -> Seq<u16> {
    Seq::new(
        ((bytes.len() + 1) / 2) as nat,
        |i: int|
            if 2 * i + 1 >= bytes.len() {
                0xfffd
            } else {
                match endian {
                    Endian::Little => (bytes[2 * i] + 256 * bytes[2 * i + 1]) as u16,
                    Endian::Big => (bytes[2 * i + 1] + 256 * bytes[2 * i]) as u16,
                }
            },
    )
}

/// A text without the byte order mark it begins with.
pub open spec fn without_mark(whole: Seq<char>) -> Seq<char> {
    if whole.len() > 0 && whole[0] == '\u{feff}' {
        whole.skip(1)
    } else {
        whole
    }
}

/// The head of a file.
pub open spec fn head_of(bytes: Seq<u8>) -> Seq<u8> {
    if bytes.len() > BINARY_SNIFF_BYTES {
        bytes.take(BINARY_SNIFF_BYTES as int)
    } else {
        bytes
    }
}

/// The lines of a file, or nothing where it holds no text.
pub open spec fn file_lines(bytes: Seq<u8>) -> Option<Seq<Seq<char>>> {
    match sniffed(head_of(bytes)) {
        Sniff::Text => Some(byte_lines(bytes, 0)),
        Sniff::Utf16(endian) => Some(
            text_lines(without_mark(utf16_text(utf16_units(bytes, endian))), 0),
        ),
        Sniff::Binary => None,
    }
}

/// The characters of a line without the line ends at its end.
fn trim_line_end(chars: &Vec<char>, from: usize, to: usize) -> (line: String)
    requires
        from <= to <= chars@.len(),
    ensures
        line@ == without_line_end(chars@.subrange(from as int, to as int)),
{
    let mut end: usize = to;
    while end > from && (chars[end - 1] == '\n' || chars[end - 1] == '\r')
        invariant
            from <= end <= to <= chars@.len(),
            without_line_end(chars@.subrange(from as int, to as int)) == without_line_end(
                chars@.subrange(from as int, end as int),
            ),
        decreases end,
    {
        proof {
            let line = chars@.subrange(from as int, end as int);
            assert(line.last() == chars@[end - 1]);
            assert(line.drop_last() =~= chars@.subrange(from as int, end - 1));
        }
        end -= 1;
    }
    proof {
        if end > from {
            assert(chars@.subrange(from as int, end as int).last() == chars@[end - 1]);
        }
    }
    text::string_of(chars.as_slice(), from, end)
}

/// The lines of a text, without their ends.
pub fn lines_of(whole: &str) -> (lines: Vec<String>)
    ensures
        text::texts(lines@) == text_lines(whole@, 0),
{
    let chars = text::chars_of(whole);
    let len: usize = chars.len();
    let mut lines: Vec<String> = Vec::new();
    let mut i: usize = 0;
    assert(text::texts(lines@) + text_lines(whole@, 0) =~= text_lines(whole@, 0));
    while i < len
        invariant
            chars@ == whole@,
            len == chars@.len(),
            i <= len,
            text::texts(lines@) + text_lines(whole@, i as int) == text_lines(whole@, 0),
        decreases len - i,
    {
        let ghost before = text::texts(lines@);
        let end = text::find_from(&chars, '\n', i);
        let next: usize = if end < len {
            end + 1
        } else {
            len
        };
        let line = trim_line_end(&chars, i, next);
        let ghost found = line@;
        proof {
            text::texts_push(lines@, line);
            assert(chars@.subrange(i as int, len as int) =~= chars@.skip(i as int));
            let rest = text_lines(whole@, next as int);
            assert(text_lines(whole@, i as int) =~= seq![found] + rest);
            assert(before + (seq![found] + rest) =~= before.push(found) + rest);
        }
        lines.push(line);
        i = next;
    }
    assert(text::texts(lines@) + Seq::<Seq<char>>::empty() =~= text::texts(lines@));
    lines
}

/// The text of one line that was read, with its end, without it.
pub fn read_lossy_line(bytes: &Vec<u8>) -> (line: String)
    ensures
        line@ == byte_line(bytes@),
{
    let decoded = utf8_lossy(bytes);
    let chars = text::chars_of(decoded.as_str());
    let line = trim_line_end(&chars, 0, chars.len());
    assert(chars@.subrange(0, chars@.len() as int) =~= chars@);
    line
}

/// The bytes from `from` up to, and not with, `to`.
fn bytes_of(bytes: &Vec<u8>, from: usize, to: usize) -> (piece: Vec<u8>)
    requires
        from <= to <= bytes@.len(),
    ensures
        piece@ == bytes@.subrange(from as int, to as int),
{
    let mut piece: Vec<u8> = Vec::new();
    let mut i: usize = from;
    while i < to
        invariant
            from <= i <= to <= bytes@.len(),
            piece@ =~= bytes@.subrange(from as int, i as int),
        decreases to - i,
    {
        piece.push(bytes[i]);
        i += 1;
    }
    piece
}

/// The lines of a file of bytes.
fn read_byte_lines(bytes: &Vec<u8>) -> (lines: Vec<String>)
    ensures
        text::texts(lines@) == byte_lines(bytes@, 0),
{
    let len: usize = bytes.len();
    let mut lines: Vec<String> = Vec::new();
    let mut i: usize = 0;
    assert(text::texts(lines@) + byte_lines(bytes@, 0) =~= byte_lines(bytes@, 0));
    while i < len
        invariant
            len == bytes@.len(),
            i <= len,
            text::texts(lines@) + byte_lines(bytes@, i as int) == byte_lines(bytes@, 0),
        decreases len - i,
    {
        let ghost before = text::texts(lines@);
        let mut end: usize = i;
        while end < len && bytes[end] != 10
            invariant
                len == bytes@.len(),
                i <= end <= len,
                line_feed_from(bytes@, i as int) == line_feed_from(bytes@, end as int),
            decreases len - end,
        {
            end += 1;
        }
        let next: usize = if end < len {
            end + 1
        } else {
            len
        };
        let line = read_lossy_line(&bytes_of(bytes, i, next));
        let ghost found = line@;
        proof {
            text::texts_push(lines@, line);
            assert(bytes@.subrange(i as int, len as int) =~= bytes@.skip(i as int));
            let rest = byte_lines(bytes@, next as int);
            assert(byte_lines(bytes@, i as int) =~= seq![found] + rest);
            assert(before + (seq![found] + rest) =~= before.push(found) + rest);
        }
        lines.push(line);
        i = next;
    }
    assert(text::texts(lines@) + Seq::<Seq<char>>::empty() =~= text::texts(lines@));
    lines
}

/// The lines of a file of UTF-16. The byte order mark is dropped.
pub fn read_utf16_lines(bytes: &Vec<u8>, endian: Endian) -> (lines: Vec<String>)
    ensures
        text::texts(lines@) == text_lines(
            without_mark(utf16_text(utf16_units(bytes@, endian))),
            0,
        ),
{
    let mut units: Vec<u16> = Vec::new();
    let ghost all = utf16_units(bytes@, endian);
    let len: usize = bytes.len();
    let mut i: usize = 0;
    while i < len
        invariant
            len == bytes@.len(),
            all == utf16_units(bytes@, endian),
            i <= len,
            i == 2 * units@.len() || (i == len && i == 2 * units@.len() - 1),
            units@ =~= all.take(units@.len() as int),
            units@.len() <= all.len(),
        decreases len - i,
    {
        let ghost k = units@.len() as int;
        if len - i == 1 {
            units.push(0xfffd);
            assert(units@ =~= all.take(k + 1));
            i = len;
        } else {
            let first: u16 = bytes[i] as u16;
            let second: u16 = bytes[i + 1] as u16;
            let unit: u16 = match endian {
                Endian::Little => first + 256 * second,
                Endian::Big => second + 256 * first,
            };
            assert(all[k] == unit);
            units.push(unit);
            assert(units@ =~= all.take(k + 1));
            i += 2;
        }
    }
    assert(all.take(all.len() as int) =~= all);
    assert(units@ =~= all);
    let decoded = utf16_lossy(&units);
    let chars = text::chars_of(decoded.as_str());
    if chars.len() > 0 && chars[0] == '\u{feff}' {
        let rest = text::string_of(chars.as_slice(), 1, chars.len());
        assert(rest@ =~= decoded@.skip(1));
        lines_of(rest.as_str())
    } else {
        lines_of(decoded.as_str())
    }
}

/// The lines of a file, or the refusal of one that holds no text.
pub fn read_lines(bytes: &Vec<u8>) -> (lines: Result<Vec<String>, ReadError>)
    ensures
        match lines {
            Ok(lines) => file_lines(bytes@) == Some(text::texts(lines@)),
            Err(error) => file_lines(bytes@) is None && error is Binary,
        },
{
    let head_len: usize = if bytes.len() > BINARY_SNIFF_BYTES {
        BINARY_SNIFF_BYTES
    } else {
        bytes.len()
    };
    let head = bytes_of(bytes, 0, head_len);
    assert(head@ =~= head_of(bytes@));
    match sniff(head.as_slice()) {
        Sniff::Text => Ok(read_byte_lines(bytes)),
        Sniff::Utf16(endian) => Ok(read_utf16_lines(bytes, endian)),
        Sniff::Binary => Err(ReadError::Binary),
    }
}

impl Document {
    /// A document over the whole of a file, or the refusal of one that cannot
    /// be read as lines.
    pub fn read(path: &str, target: Option<Target>, bytes: &Vec<u8>) -> (document: Result<
        Document,
        ReadError,
    >)
        ensures
            match document {
                Ok(document) => {
                    &&& target == Some(Target::File) || target is None
                    &&& file_lines(bytes@) is Some
                    &&& document.wf()
                    &&& document@ == DocumentModel::fresh(
                        file_lines(bytes@)->Some_0,
                        Some(path@),
                    )
                },
                Err(error) => match target {
                    Some(Target::Directory) => error is IsADirectory,
                    Some(Target::Other) => error is NotAFile,
                    _ => file_lines(bytes@) is None && error is Binary,
                },
            },
    {
        match refuse_unreadable(target) {
            Ok(()) => {},
            Err(error) => {
                return Err(error);
            },
        }
        match read_lines(bytes) {
            Ok(lines) => Ok(Document::for_file(path, lines)),
            Err(error) => Err(error),
        }
    }
}

// ---------------------------------------------------------------------------
// Laws

/// The lines shown are those to show.
pub proof fn shown_lines_are_those_to_show(
    verdicts: Seq<Verdict>,
    mode: Mode,
    including: bool,
    line: usize,
)
    requires
        verdicts.len() <= usize::MAX,
    ensures
        shown_lines(verdicts, mode, including).contains(line) <==> line < verdicts.len() && shows(
            mode,
            including,
            verdicts[line as int],
        ),
    decreases verdicts.len(),
{
    if verdicts.len() > 0 {
        let before = shown_lines(verdicts.drop_last(), mode, including);
        let shown = shown_lines(verdicts, mode, including);
        shown_lines_are_those_to_show(verdicts.drop_last(), mode, including, line);
        if before.contains(line) {
            let k = choose|k: int| 0 <= k < before.len() && before[k] == line;
            assert(shown[k] == line);
        }
        if shown.contains(line) {
            let k = choose|k: int| 0 <= k < shown.len() && shown[k] == line;
            if k < before.len() {
                assert(before[k] == line);
            }
        }
        if line == verdicts.len() - 1 && shows(mode, including, verdicts.last()) {
            assert(shown[before.len() as int] == line);
        }
    }
}

/// Where nothing selects lines, hiding hides none that dimming shows.
pub proof fn hiding_needs_something_to_hide_against(verdicts: Seq<Verdict>, including: bool)
    ensures
        shown_lines(verdicts, Mode::FilteredOnly, false) == shown_lines(
            verdicts,
            Mode::Dimmed,
            including,
        ),
    decreases verdicts.len(),
{
    if verdicts.len() > 0 {
        hiding_needs_something_to_hide_against(verdicts.drop_last(), including);
    }
}

/// The generation moves just where the lines shown change.
pub proof fn the_generation_moves_with_the_lines_shown(document: DocumentModel)
    ensures
        document.recomputed().generation == document.generation <==> document.recomputed().visible
            == document.visible,
        document.recomputed().recomputed() == document.recomputed(),
{
    assert(document.generation.wrapping_add(1) != document.generation);
}

/// Deciding the lines again with the same filters changes nothing.
pub proof fn evaluating_twice_is_evaluating_once(document: DocumentModel, filters: ActiveModel)
    ensures
        document.evaluated(filters).evaluated(filters) == document.evaluated(filters),
{
    let once = document.evaluated(filters);
    let twice = once.evaluated(filters);
    assert(once.lines == document.lines);
    assert(once.kinds == document.kinds);
    assert forall|i: int| 0 <= i < document.lines.len() implies once.verdicts[i] == filters.verdict(
        once.lines[i],
        once.kinds_at(i),
    ) by {
        assert(once.kinds_at(i) == document.kinds_at(i));
    }
    let decided = Seq::new(
        once.lines.len(),
        |i: int| filters.verdict(once.lines[i], once.kinds_at(i)),
    );
    assert(decided =~= once.verdicts);
    assert(twice =~= once);
}

/// Rows and lines lead to each other: no line is shown in two rows.
pub proof fn rows_and_lines_map_both_ways(document: DocumentModel, row: int, other: int)
    requires
        document.well_formed(),
        0 <= row < document.visible.len(),
        0 <= other < document.visible.len(),
        document.visible[row] == document.visible[other],
    ensures
        row == other,
{
    if row < other {
        assert(document.visible[row] < document.visible[other]);
    } else if other < row {
        assert(document.visible[other] < document.visible[row]);
    }
}

/// What is asked of a window of rows is a slice of what is asked of all rows.
pub proof fn a_window_is_a_slice(document: DocumentModel, start: int, end: int)
    requires
        0 <= start <= end <= document.visible.len(),
    ensures
        document.window(start, end) == document.visible.subrange(start, end),
        Seq::new(document.window(start, end).len(), |i: int| document.ends_group(start + i))
            == Seq::new(
            document.visible.len(),
            |row: int| document.ends_group(row),
        ).subrange(start, end),
{
    assert(Seq::new(document.window(start, end).len(), |i: int| document.ends_group(start + i))
        =~= Seq::new(document.visible.len(), |row: int| document.ends_group(row)).subrange(
        start,
        end,
    ));
}

/// Where every line is shown, no line ends a group.
pub proof fn a_whole_file_has_no_gaps(document: DocumentModel, row: int)
    requires
        document.well_formed(),
        document.visible.len() == document.lines.len(),
        forall|i: int| 0 <= i < document.visible.len() ==> (#[trigger] document.visible[i]) == i,
        0 <= row < document.visible.len(),
    ensures
        !document.ends_group(row),
{
}

proof fn encoding_joins(first: Seq<char>, second: Seq<char>)
    ensures
        vstd::utf8::encode_utf8(first + second) == vstd::utf8::encode_utf8(first)
            + vstd::utf8::encode_utf8(second),
    decreases first.len(),
{
    let both = vstd::utf8::encode_utf8(first) + vstd::utf8::encode_utf8(second);
    if first.len() == 0 {
        assert(first + second =~= second);
        assert(both =~= vstd::utf8::encode_utf8(second));
    } else {
        assert((first + second).drop_first() =~= first.drop_first() + second);
        encoding_joins(first.drop_first(), second);
        assert(both =~= vstd::utf8::encode_scalar(first[0] as u32) + (vstd::utf8::encode_utf8(
            first.drop_first(),
        ) + vstd::utf8::encode_utf8(second)));
    }
}

proof fn one_byte_is_itself(scalar: u32)
    by (bit_vector)
    requires
        scalar <= 0x7f,
    ensures
        (scalar & 0x7F) as u8 == scalar,
{
}

proof fn more_bytes_are_high(scalar: u32)
    by (bit_vector)
    ensures
        0xC0u8 <= (0xC0u8 | ((scalar >> 6) & 0x1F) as u8) <= 0xDFu8,
        0xE0u8 <= (0xE0u8 | ((scalar >> 12) & 0x0F) as u8) <= 0xEFu8,
        0xF0u8 <= (0xF0u8 | ((scalar >> 18) & 0x7) as u8) <= 0xF7u8,
        0x80u8 <= (0x80u8 | (scalar & 0x3F) as u8),
        0x80u8 <= (0x80u8 | ((scalar >> 6) & 0x3F) as u8),
        0x80u8 <= (0x80u8 | ((scalar >> 12) & 0x3F) as u8),
{
}

/// A line feed is one byte, and no byte of another character is one.
proof fn only_line_feeds_are_line_feeds(c: char)
    ensures
        c == '\n' ==> vstd::utf8::encode_scalar(c as u32) == seq![10u8],
        c != '\n' ==> forall|i: int|
            0 <= i < vstd::utf8::encode_scalar(c as u32).len() ==> (
            #[trigger] vstd::utf8::encode_scalar(c as u32)[i]) != 10,
        vstd::utf8::encode_scalar(c as u32).len() > 0,
        vstd::utf8::encode_scalar(c as u32)[0] < 0xf8,
{
    let scalar = c as u32;
    if scalar <= 0x7f {
        one_byte_is_itself(scalar);
        assert(vstd::utf8::encode_scalar(scalar) =~= seq![scalar as u8]);
    } else {
        more_bytes_are_high(scalar);
    }
}

proof fn no_line_feed_inside(piece: Seq<char>)
    requires
        !piece.contains('\n'),
    ensures
        forall|i: int|
            0 <= i < vstd::utf8::encode_utf8(piece).len() ==> (
            #[trigger] vstd::utf8::encode_utf8(piece)[i]) != 10,
    decreases piece.len(),
{
    if piece.len() > 0 {
        let rest = piece.drop_first();
        assert(piece.contains(piece[0]));
        only_line_feeds_are_line_feeds(piece[0]);
        assert forall|i: int| 0 <= i < rest.len() implies rest[i] != '\n' by {
            assert(piece.contains(piece[i + 1]));
        }
        no_line_feed_inside(rest);
        let first = vstd::utf8::encode_scalar(piece[0] as u32);
        let all = vstd::utf8::encode_utf8(piece);
        assert forall|i: int| 0 <= i < all.len() implies (#[trigger] all[i]) != 10 by {
            if i < first.len() {
                assert(all[i] == first[i]);
            } else {
                assert(all[i] == vstd::utf8::encode_utf8(rest)[i - first.len()]);
            }
        }
    }
}

proof fn line_feed_is_at(bytes: Seq<u8>, i: int, at: int)
    requires
        0 <= i <= at <= bytes.len(),
        at < bytes.len() ==> bytes[at] == 10,
        forall|j: int| i <= j < at ==> (#[trigger] bytes[j]) != 10,
    ensures
        line_feed_from(bytes, i) == at,
    decreases at - i,
{
    if i < at {
        line_feed_is_at(bytes, i + 1, at);
    }
}

proof fn a_line_feed_is_one_byte()
    ensures
        vstd::utf8::encode_utf8(seq!['\n']) == seq![10u8],
{
    reveal_with_fuel(vstd::utf8::encode_utf8, 2);
    only_line_feeds_are_line_feeds('\n');
    let feed = seq!['\n'];
    assert(feed[0] == '\n');
    assert(feed.drop_first() =~= Seq::<char>::empty());
    assert(vstd::utf8::encode_utf8(feed) =~= seq![10u8]);
}

/// The bytes of a text have the lines of the text.
#[verifier::rlimit(40)]
proof fn bytes_have_the_lines_of_their_text(whole: Seq<char>, i: int)
    requires
        0 <= i <= whole.len(),
    ensures
        byte_lines(
            vstd::utf8::encode_utf8(whole),
            vstd::utf8::encode_utf8(whole.take(i)).len() as int,
        ) == text_lines(whole, i),
    decreases whole.len() - i,
{
    let bytes = vstd::utf8::encode_utf8(whole);
    let before = vstd::utf8::encode_utf8(whole.take(i));
    let from = before.len() as int;
    assert(whole =~= whole.take(i) + whole.skip(i));
    encoding_joins(whole.take(i), whole.skip(i));
    let rest = vstd::utf8::encode_utf8(whole.skip(i));
    assert(bytes.skip(from) =~= rest);
    if i == whole.len() {
        assert(whole.skip(i) =~= Seq::<char>::empty());
    } else {
        only_line_feeds_are_line_feeds(whole.skip(i)[0]);
        assert(rest.len() > 0);
        text::next_at_is_ahead(whole, '\n', i);
        let end = text::next_at(whole, '\n', i);
        let piece = whole.subrange(i, end);
        assert(!piece.contains('\n')) by {
            assert forall|k: int| 0 <= k < piece.len() implies piece[k] != '\n' by {
                assert(whole[i + k] != '\n');
            }
        }
        no_line_feed_inside(piece);
        let inside = vstd::utf8::encode_utf8(piece);
        let at = from + inside.len();
        if end >= whole.len() {
            assert(piece =~= whole.skip(i));
            assert forall|j: int| from <= j < at implies (#[trigger] bytes[j]) != 10 by {
                assert(bytes.skip(from)[j - from] == inside[j - from]);
            }
            line_feed_is_at(bytes, from, at);
            line_reads_back(whole.skip(i));
        } else {
            let line = whole.subrange(i, end + 1);
            let tail = whole.skip(end + 1);
            assert(whole.skip(i) =~= line + tail);
            encoding_joins(line, tail);
            assert(line =~= piece + seq!['\n']);
            encoding_joins(piece, seq!['\n']);
            a_line_feed_is_one_byte();
            let line_bytes = vstd::utf8::encode_utf8(line);
            assert(line_bytes =~= inside + seq![10u8]);
            assert forall|j: int| from <= j < at implies (#[trigger] bytes[j]) != 10 by {
                assert(bytes.skip(from)[j - from] == inside[j - from]);
            }
            assert(bytes[at] == bytes.skip(from)[inside.len() as int]);
            line_feed_is_at(bytes, from, at);
            assert(bytes.subrange(from, at + 1) =~= line_bytes);
            line_reads_back(line);
            assert(whole.take(end + 1) =~= whole.take(i) + line);
            encoding_joins(whole.take(i), line);
            bytes_have_the_lines_of_their_text(whole, end + 1);
        }
    }
}

/// A line's bytes have the line's text.
proof fn line_reads_back(line: Seq<char>)
    ensures
        byte_line(vstd::utf8::encode_utf8(line)) == without_line_end(line),
{
    vstd::utf8::encode_utf8_valid_utf8(line);
    vstd::utf8::encode_utf8_decode_utf8(line);
}

/// A file that holds the UTF-8 of a text has the lines of the text, unless a
/// zero byte stands in its head.
pub proof fn utf8_files_have_their_text(whole: Seq<char>)
    requires
        !head_of(vstd::utf8::encode_utf8(whole)).contains(0),
    ensures
        file_lines(vstd::utf8::encode_utf8(whole)) == Some(text_lines(whole, 0)),
{
    let bytes = vstd::utf8::encode_utf8(whole);
    bytes_have_the_lines_of_their_text(whole, 0);
    assert(whole.take(0) =~= Seq::<char>::empty());
    if whole.len() > 0 {
        only_line_feeds_are_line_feeds(whole[0]);
        assert(bytes[0] < 0xf8);
        assert(head_of(bytes)[0] == bytes[0]);
    }
}

/// How many line feeds a text holds from `i` on.
pub open spec fn feeds_from(whole: Seq<char>, i: int) -> int
    decreases whole.len() - i,
{
    if i >= whole.len() {
        0
    } else if whole[i] == '\n' {
        1 + feeds_from(whole, i + 1)
    } else {
        feeds_from(whole, i + 1)
    }
}

/// The piece at a place among those that line feeds part a text into from `i`
/// on.
pub open spec fn piece_from(whole: Seq<char>, i: int, place: int) -> Seq<char>
    decreases place,
{
    let end = text::next_at(whole, '\n', i);
    if place <= 0 {
        whole.subrange(i, end)
    } else {
        piece_from(whole, end + 1, place - 1)
    }
}

/// A text without the carriage returns at its end.
pub open spec fn without_returns(line: Seq<char>) -> Seq<char>
    decreases line.len(),
{
    if line.len() > 0 && line.last() == '\r' {
        without_returns(line.drop_last())
    } else {
        line
    }
}

/// Line feeds are counted from the first on.
proof fn feeds_up_to(whole: Seq<char>, i: int)
    requires
        0 <= i <= whole.len(),
    ensures
        feeds_from(whole, i) == if text::next_at(whole, '\n', i) < whole.len() {
            1 + feeds_from(whole, text::next_at(whole, '\n', i) + 1)
        } else {
            0
        },
    decreases whole.len() - i,
{
    if i < whole.len() && whole[i] != '\n' {
        feeds_up_to(whole, i + 1);
    }
}

/// In a text without line feeds, line ends are carriage returns.
proof fn ends_are_returns(line: Seq<char>)
    requires
        !line.contains('\n'),
    ensures
        without_line_end(line) == without_returns(line),
    decreases line.len(),
{
    if line.len() > 0 && line.last() == '\r' {
        let front = line.drop_last();
        assert(!front.contains('\n')) by {
            if front.contains('\n') {
                let k = choose|k: int| 0 <= k < front.len() && front[k] == '\n';
                assert(line[k] == '\n');
            }
        }
        ends_are_returns(front);
    } else if line.len() > 0 {
        assert(line.contains(line.last()));
    }
}

/// A text has a line for each line feed, and one more where something stands
/// behind the last. Each is the piece between two line feeds without the
/// carriage returns at its end.
pub proof fn lines_are_pieces(whole: Seq<char>)
    ensures
        text_lines(whole, 0).len() == feeds_from(whole, 0) + if whole.len() > 0 && whole.last()
            != '\n' {
            1int
        } else {
            0
        },
        forall|n: int|
            0 <= n < text_lines(whole, 0).len() ==> #[trigger] text_lines(whole, 0)[n]
                == without_returns(piece_from(whole, 0, n)),
{
    lines_from_are_pieces(whole, 0);
}

proof fn lines_from_are_pieces(whole: Seq<char>, i: int)
    requires
        0 <= i <= whole.len(),
    ensures
        text_lines(whole, i).len() == feeds_from(whole, i) + if i < whole.len() && whole.last()
            != '\n' {
            1int
        } else {
            0
        },
        forall|n: int|
            0 <= n < text_lines(whole, i).len() ==> #[trigger] text_lines(whole, i)[n]
                == without_returns(piece_from(whole, i, n)),
    decreases whole.len() - i,
{
    text::next_at_is_ahead(whole, '\n', i);
    feeds_up_to(whole, i);
    let end = text::next_at(whole, '\n', i);
    if i < whole.len() {
        let piece = whole.subrange(i, end);
        assert(!piece.contains('\n')) by {
            if piece.contains('\n') {
                let k = choose|k: int| 0 <= k < piece.len() && piece[k] == '\n';
                assert(whole[i + k] == '\n');
            }
        }
        ends_are_returns(piece);
        if end >= whole.len() {
            assert(whole.skip(i) =~= piece);
            assert(whole.last() != '\n') by {
                assert(whole[whole.len() - 1] != '\n');
            }
        } else {
            lines_from_are_pieces(whole, end + 1);
            let line = whole.subrange(i, end + 1);
            assert(line.last() == '\n');
            assert(line.drop_last() =~= piece);
            let rest = text_lines(whole, end + 1);
            assert(text_lines(whole, i) == seq![without_line_end(line)] + rest);
            assert forall|n: int| 0 <= n < text_lines(whole, i).len() implies #[trigger] text_lines(
                whole,
                i,
            )[n] == without_returns(piece_from(whole, i, n)) by {
                if n > 0 {
                    assert(text_lines(whole, i)[n] == rest[n - 1]);
                }
            }
            if end + 1 == whole.len() {
                assert(whole.last() == whole[end]);
            }
        }
    }
}

/// A line feed behind a text that does not end in one changes no line.
pub proof fn a_last_line_feed_changes_nothing(whole: Seq<char>)
    requires
        whole.len() > 0,
        whole.last() != '\n',
    ensures
        text_lines(whole.push('\n'), 0) == text_lines(whole, 0),
{
    a_line_feed_behind(whole, 0);
}

proof fn feed_found_alike(whole: Seq<char>, i: int)
    requires
        0 <= i <= whole.len(),
    ensures
        text::next_at(whole.push('\n'), '\n', i) == text::next_at(whole, '\n', i),
    decreases whole.len() - i,
{
    let longer = whole.push('\n');
    if i < whole.len() {
        assert(longer[i] == whole[i]);
        if whole[i] != '\n' {
            feed_found_alike(whole, i + 1);
        }
    } else {
        assert(longer[i] == '\n');
    }
}

proof fn a_line_feed_behind(whole: Seq<char>, i: int)
    requires
        0 <= i < whole.len(),
        whole.last() != '\n',
    ensures
        text_lines(whole.push('\n'), i) == text_lines(whole, i),
    decreases whole.len() - i,
{
    let longer = whole.push('\n');
    text::next_at_is_ahead(whole, '\n', i);
    feed_found_alike(whole, i);
    let end = text::next_at(whole, '\n', i);
    if end >= whole.len() {
        let line = longer.subrange(i, end + 1);
        assert(line.last() == '\n');
        assert(line.drop_last() =~= whole.skip(i));
        assert(text_lines(longer, end + 1) =~= Seq::<Seq<char>>::empty());
        assert(text_lines(longer, i) =~= seq![without_line_end(whole.skip(i))]);
    } else {
        assert(whole[end] == '\n');
        assert(end + 1 < whole.len()) by {
            if end + 1 == whole.len() {
                assert(whole.last() == whole[end]);
            }
        }
        a_line_feed_behind(whole, end + 1);
        assert(longer.subrange(i, end + 1) =~= whole.subrange(i, end + 1));
    }
}

} // verus!
