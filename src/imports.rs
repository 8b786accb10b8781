use vstd::prelude::*;

verus! {

/// The import bookkeeping of one interpreter session, as a mathematical value: the
/// files imported successfully, and the chain of files being imported now.
pub ghost struct ImportState {
    pub imported: Set<Seq<char>>,
    pub in_progress: Seq<Seq<char>>,
}

/// What to do with an import of a file.
#[derive(Debug, Clone, Copy, PartialEq, Eq, Structural)]
pub enum ImportAction {
    /// Already imported: nothing to do.
    Skip,
    /// Read, parse and run the file, then report how that went with `finish`.
    Load,
}

/// The outcome of starting an import of `f`: skipped when already imported, an error
/// when `f` is being imported now (a cycle), else loaded.
pub open spec fn import_decision(s: ImportState, f: Seq<char>) -> Result<ImportAction, ()> {
    if s.imported.contains(f) {
        Ok(ImportAction::Skip)
    } else if s.in_progress.contains(f) {
        Err(())
    } else {
        Ok(ImportAction::Load)
    }
}

/// The state after starting an import of `f`.
pub open spec fn after_begin(s: ImportState, f: Seq<char>) -> ImportState {
    match import_decision(s, f) {
        Ok(ImportAction::Load) => ImportState { in_progress: s.in_progress.push(f), ..s },
        _ => s,
    }
}

/// The state after the innermost import in progress ends, successfully or not.
pub open spec fn after_finish(s: ImportState, succeeded: bool) -> ImportState {
    ImportState {
        imported: if succeeded && s.in_progress.len() > 0 {
            s.imported.insert(s.in_progress.last())
        } else {
            s.imported
        },
        in_progress: if s.in_progress.len() > 0 {
            s.in_progress.drop_last()
        } else {
            s.in_progress
        },
    }
}

pub open spec fn circular_import_message(f: Seq<char>) -> Seq<char> {
    "Circular import bhettayo bro: "@ + f
}

/// Which files were imported and which are being imported.
pub struct ImportTracker {
    imported: Vec<String>,
    in_progress: Vec<String>,
}

fn contains_name(v: &Vec<String>, f: &String) -> (r: bool)
    ensures
        r == v@.map_values(|s: String| s@).contains(f@),
{
    let ghost names = v@.map_values(|s: String| s@);
    let mut i: usize = 0;
    while i < v.len()
        invariant
            i <= v.len(),
            names == v@.map_values(|s: String| s@),
            forall|j: int| 0 <= j < i ==> names[j] != f@,
        decreases v.len() - i,
    {
        if v[i] == *f {
            assert(names[i as int] == f@);
            return true;
        }
        i = i + 1;
    }
    false
}

impl ImportTracker {
    pub closed spec fn state(&self) -> ImportState {
        ImportState {
            imported: self.imported@.map_values(|s: String| s@).to_set(),
            in_progress: self.in_progress@.map_values(|s: String| s@),
        }
    }

    /// A session in which nothing was imported yet.
    pub fn new() -> (r: ImportTracker)
        ensures
            r.state() == (ImportState { imported: Set::empty(), in_progress: Seq::empty() }),
    {
        let r = ImportTracker { imported: Vec::new(), in_progress: Vec::new() };
        assert(r.state().imported =~= Set::empty());
        assert(r.state().in_progress =~= Seq::empty());
        r
    }

    /// Starts an import of `filename`: `Skip` where it was imported already, an
    /// error where it is being imported now, else `Load`, with `filename` marked as
    /// in progress.
    pub fn begin(&mut self, filename: &str) -> (r: Result<ImportAction, String>)
        ensures
            final(self).state() == after_begin(old(self).state(), filename@),
            match import_decision(old(self).state(), filename@) {
                Ok(a) => r == Ok::<ImportAction, String>(a),
                Err(_) => r is Err && r->Err_0@ == circular_import_message(filename@),
            },
    {
        let f = String::from_str(filename);
        if contains_name(&self.imported, &f) {
            Ok(ImportAction::Skip)
        } else if contains_name(&self.in_progress, &f) {
            let mut m = String::from_str("Circular import bhettayo bro: ");
            m.append(filename);
            Err(m)
        } else {
            self.in_progress.push(f);
            assert(self.in_progress@.map_values(|s: String| s@) =~= old(
                self,
            ).in_progress@.map_values(|s: String| s@).push(filename@));
            Ok(ImportAction::Load)
        }
    }

    /// Ends the innermost import in progress, recording its file as imported where
    /// it `succeeded`.
    pub fn finish(&mut self, succeeded: bool)
        ensures
            final(self).state() == after_finish(old(self).state(), succeeded),
    {
        let ghost s0 = self.state();
        match self.in_progress.pop() {
            Some(f) => {
                assert(self.in_progress@.map_values(|s: String| s@) =~= s0.in_progress.drop_last());
                if succeeded {
                    self.imported.push(f);
                    assert(self.imported@.map_values(|s: String| s@) =~= old(
                        self,
                    ).imported@.map_values(|s: String| s@).push(f@));
                    proof {
                        old(self).imported@.map_values(|s: String| s@).lemma_push_to_set_commute(f@);
                    }
                    assert(self.state().imported =~= s0.imported.insert(f@));
                }
            },
            None => {},
        }
    }
}

/// Importing a file twice runs it once: a file that is neither imported nor being
/// imported is loaded; while it runs, importing it again (directly or through the
/// files it imports) is a circular-import error that changes nothing, so nothing of
/// it runs a second time; once it ran successfully, every later import of it is
/// skipped, whatever other imports start or end in between.
pub proof fn lemma_import_once(s: ImportState, f: Seq<char>)
    requires
        !s.imported.contains(f),
        !s.in_progress.contains(f),
    ensures
        import_decision(s, f) == Ok::<ImportAction, ()>(ImportAction::Load),
        import_decision(after_begin(s, f), f) is Err,
        after_begin(after_begin(s, f), f) == after_begin(s, f),
        import_decision(after_finish(after_begin(s, f), true), f) == Ok::<ImportAction, ()>(
            ImportAction::Skip,
        ),
{
    assert(after_begin(s, f).in_progress.last() == f);
}

/// Once a file is imported, it stays imported: no start or end of an import removes
/// it, so its later imports are all skipped.
pub proof fn lemma_imported_stays(s: ImportState, f: Seq<char>, g: Seq<char>, ok: bool)
    requires
        s.imported.contains(f),
    ensures
        after_begin(s, g).imported.contains(f),
        after_finish(s, ok).imported.contains(f),
        import_decision(s, f) == Ok::<ImportAction, ()>(ImportAction::Skip),
{
}

} // verus!
