//! The merge-scope state machine: deciding, per matched line, whether to
//! emit the record standalone, open a buffered scope, absorb into it, or
//! flush it — multiline record assembly bounded by a start and an end
//! pattern, with an inclusive or exclusive end boundary.

use vstd::prelude::*;
use crate::errors::GropError;
use crate::record::{spec_get, set_field_spec, Record};

verus! {

/// Absorbing a record into the buffer: for each configured merge field in
/// order, the record's value is appended to the buffer's under a newline
/// (or inserted where the buffer lacks the field).  A merge field the
/// record does not carry is the error.
pub open spec fn absorb_spec(
    buf: Seq<(Seq<char>, Seq<char>)>,
    rec: Seq<(Seq<char>, Seq<char>)>,
    fields: Seq<Seq<char>>,
) -> Result<Seq<(Seq<char>, Seq<char>)>, Seq<char>>
    decreases fields.len(),
{
    if fields.len() == 0 {
        Ok(buf)
    } else {
        match spec_get(rec, fields[0]) {
            None => Err(fields[0]),
            Some(v) => {
                let nv = match spec_get(buf, fields[0]) {
                    Some(o) => o + "\n"@ + v,
                    None => v,
                };
                absorb_spec(set_field_spec(buf, fields[0], nv), rec, fields.drop_first())
            },
        }
    }
}

/// Merges the record `m` into `buf` exactly as [`absorb_spec`] describes;
/// the first merge field missing from `m` aborts with
/// [`GropError::MissingField`].
pub fn merge_match_to_buf(merge_field: &Vec<String>, m: &Record, buf: &mut Record) -> (r: Result<
    (),
    GropError,
>)
    ensures
        r is Ok <==> absorb_spec(old(buf)@, m@, merge_field.deep_view()) is Ok,
        r is Ok ==> absorb_spec(old(buf)@, m@, merge_field.deep_view()) == Ok::<
            Seq<(Seq<char>, Seq<char>)>,
            Seq<char>,
        >(final(buf)@),
        r matches Err(e) ==> (e matches GropError::MissingField(f) && absorb_spec(
            old(buf)@,
            m@,
            merge_field.deep_view(),
        ) == Err::<Seq<(Seq<char>, Seq<char>)>, Seq<char>>(f@)),
{
    let ghost names = merge_field.deep_view();
    let mut i: usize = 0;
    proof {
        assert(names.skip(0) =~= names);
    }
    while i < merge_field.len()
        invariant
            0 <= i <= merge_field.len(),
            names == merge_field.deep_view(),
            names.len() == merge_field.len(),
            absorb_spec(old(buf)@, m@, names) == absorb_spec(buf@, m@, names.skip(i as int)),
        decreases merge_field.len() - i,
    {
        let field = &merge_field[i];
        proof {
            assert(names.skip(i as int)[0] == names[i as int]);
            assert(names[i as int] == merge_field[i as int]@);
            assert(names.skip(i as int).drop_first() =~= names.skip(i + 1));
        }
        match m.get(field) {
            None => {
                let f = field.clone();
                return Err(GropError::MissingField(f));
            },
            Some(v) => {
                let vl = v.clone();
                match buf.get(field) {
                    Some(o) => {
                        let mut nv = o.clone();
                        nv.append("\n");
                        nv.append(vl.as_str());
                        buf.set(field, nv);
                    },
                    None => {
                        buf.set(field, vl);
                    },
                }
            },
        }
        i = i + 1;
    }
    proof {
        assert(names.skip(names.len() as int) =~= Seq::<Seq<char>>::empty());
    }
    Ok(())
}

/// One step of the merge state machine, as the configuration table gives
/// it: the next scope state, the next buffer, and the records to emit, in
/// order — or the merge field a record to absorb lacked.
pub open spec fn step_spec(
    in_scope: bool,
    buf: Seq<(Seq<char>, Seq<char>)>,
    rec: Seq<(Seq<char>, Seq<char>)>,
    is_start: bool,
    is_end: bool,
    exclusive: bool,
    fields: Seq<Seq<char>>,
) -> Result<(bool, Seq<(Seq<char>, Seq<char>)>, Seq<Seq<(Seq<char>, Seq<char>)>>), Seq<char>> {
    if !in_scope {
        if !is_start {
            Ok((false, buf, seq![rec]))
        } else {
            Ok((true, rec, Seq::empty()))
        }
    } else {
        if !is_end {
            match absorb_spec(buf, rec, fields) {
                Err(f) => Err(f),
                Ok(nb) => Ok((true, nb, Seq::empty())),
            }
        } else if !exclusive {
            match absorb_spec(buf, rec, fields) {
                Err(f) => Err(f),
                Ok(nb) => Ok((false, Seq::empty(), seq![nb])),
            }
        } else if is_start {
            Ok((true, rec, seq![buf]))
        } else {
            Ok((false, Seq::empty(), seq![buf, rec]))
        }
    }
}

/// The merge engine: the scope state and buffer, with the merge
/// configuration they run under.
///
/// The machine has no terminal state: it is fed until input is exhausted.
/// A scope still open when the stream ends is discarded with its buffered
/// content — deliberately, and pinned by a test — since nothing closes it.
pub struct MergeEngine {
    merge_fields: Vec<String>,
    exclusive: bool,
    in_scope: bool,
    buf: Record,
}

impl MergeEngine {
    /// The configured merge fields.
    pub closed spec fn fields(self) -> Seq<Seq<char>> {
        self.merge_fields.deep_view()
    }

    /// The configured end-boundary policy.
    pub closed spec fn exclusive_end(self) -> bool {
        self.exclusive
    }

    /// Whether a merge scope stands open.
    pub closed spec fn scope(self) -> bool {
        self.in_scope
    }

    /// The buffered fields of the open scope.
    pub closed spec fn buffer(self) -> Seq<(Seq<char>, Seq<char>)> {
        self.buf@
    }

    /// A fresh engine: outside any scope, with an empty buffer.
    pub fn new(merge_fields: Vec<String>, exclusive: bool) -> (r: MergeEngine)
        ensures
            r.fields() == merge_fields.deep_view(),
            r.exclusive_end() == exclusive,
            !r.scope(),
            r.buffer() == Seq::<(Seq<char>, Seq<char>)>::empty(),
    {
        MergeEngine { merge_fields, exclusive, in_scope: false, buf: Record::new() }
    }

    /// Feeds one matched record through the state machine, handing back the
    /// records to emit, in order, exactly as [`step_spec`] describes.  A
    /// record to absorb that lacks a merge field is fatal; the scope state
    /// and buffer are then meaningless, as the run aborts.
    pub fn feed(&mut self, rec: Record, is_start: bool, is_end: bool) -> (r: Result<
        Vec<Record>,
        GropError,
    >)
        ensures
            final(self).fields() == old(self).fields(),
            final(self).exclusive_end() == old(self).exclusive_end(),
            r is Ok <==> step_spec(
                old(self).scope(),
                old(self).buffer(),
                rec@,
                is_start,
                is_end,
                old(self).exclusive_end(),
                old(self).fields(),
            ) is Ok,
            r matches Ok(emits) ==> step_spec(
                old(self).scope(),
                old(self).buffer(),
                rec@,
                is_start,
                is_end,
                old(self).exclusive_end(),
                old(self).fields(),
            ) == Ok::<(bool, Seq<(Seq<char>, Seq<char>)>, Seq<Seq<(Seq<char>, Seq<char>)>>), Seq<
                char,
            >>((final(self).scope(), final(self).buffer(), emits.deep_view())),
            r matches Err(e) ==> (e matches GropError::MissingField(f) && step_spec(
                old(self).scope(),
                old(self).buffer(),
                rec@,
                is_start,
                is_end,
                old(self).exclusive_end(),
                old(self).fields(),
            ) == Err::<(bool, Seq<(Seq<char>, Seq<char>)>, Seq<Seq<(Seq<char>, Seq<char>)>>), Seq<
                char,
            >>(f@)),
    {
        if !self.in_scope {
            if !is_start {
                let mut emits: Vec<Record> = Vec::new();
                emits.push(rec);
                proof {
                    assert(emits.deep_view() =~= seq![emits@[0]@]);
                }
                Ok(emits)
            } else {
                self.buf = rec;
                self.in_scope = true;
                let emits: Vec<Record> = Vec::new();
                proof {
                    assert(emits.deep_view() =~= Seq::<Seq<(Seq<char>, Seq<char>)>>::empty());
                }
                Ok(emits)
            }
        } else {
            if !is_end {
                match merge_match_to_buf(&self.merge_fields, &rec, &mut self.buf) {
                    Err(e) => Err(e),
                    Ok(()) => {
                        let emits: Vec<Record> = Vec::new();
                        proof {
                            assert(emits.deep_view() =~= Seq::<
                                Seq<(Seq<char>, Seq<char>)>,
                            >::empty());
                        }
                        Ok(emits)
                    },
                }
            } else if !self.exclusive {
                match merge_match_to_buf(&self.merge_fields, &rec, &mut self.buf) {
                    Err(e) => Err(e),
                    Ok(()) => {
                        let flushed = self.buf.duplicate();
                        self.buf = Record::new();
                        self.in_scope = false;
                        let mut emits: Vec<Record> = Vec::new();
                        emits.push(flushed);
                        proof {
                            assert(emits.deep_view() =~= seq![emits@[0]@]);
                        }
                        Ok(emits)
                    },
                }
            } else if is_start {
                let flushed = self.buf.duplicate();
                self.buf = rec;
                let mut emits: Vec<Record> = Vec::new();
                emits.push(flushed);
                proof {
                    assert(emits.deep_view() =~= seq![emits@[0]@]);
                }
                Ok(emits)
            } else {
                let flushed = self.buf.duplicate();
                self.buf = Record::new();
                self.in_scope = false;
                let mut emits: Vec<Record> = Vec::new();
                emits.push(flushed);
                emits.push(rec);
                proof {
                    assert(emits.deep_view() =~= seq![emits@[0]@, emits@[1]@]);
                }
                Ok(emits)
            }
        }
    }
    /// Feeds one input line's match result through the machine.  A line the
    /// main pattern did not match carries no record: it is dropped without
    /// an error, emits nothing, and leaves the scope state and buffer as
    /// they stand; processing goes on.  A matched line steps as
    /// [`MergeEngine::feed`] does.
    pub fn feed_line(&mut self, m: Option<Record>, is_start: bool, is_end: bool) -> (r: Result<
        Vec<Record>,
        GropError,
    >)
        ensures
            final(self).fields() == old(self).fields(),
            final(self).exclusive_end() == old(self).exclusive_end(),
            m is None ==> (r matches Ok(emits) && emits@.len() == 0 && *final(self) == *old(
                self,
            )),
            m matches Some(rec) ==> (r is Ok <==> step_spec(
                old(self).scope(),
                old(self).buffer(),
                rec@,
                is_start,
                is_end,
                old(self).exclusive_end(),
                old(self).fields(),
            ) is Ok),
            m matches Some(rec) ==> (r matches Ok(emits) ==> step_spec(
                old(self).scope(),
                old(self).buffer(),
                rec@,
                is_start,
                is_end,
                old(self).exclusive_end(),
                old(self).fields(),
            ) == Ok::<(bool, Seq<(Seq<char>, Seq<char>)>, Seq<Seq<(Seq<char>, Seq<char>)>>), Seq<
                char,
            >>((final(self).scope(), final(self).buffer(), emits.deep_view()))),
            m matches Some(rec) ==> (r matches Err(e) ==> (e matches GropError::MissingField(f)
                && step_spec(
                old(self).scope(),
                old(self).buffer(),
                rec@,
                is_start,
                is_end,
                old(self).exclusive_end(),
                old(self).fields(),
            ) == Err::<(bool, Seq<(Seq<char>, Seq<char>)>, Seq<Seq<(Seq<char>, Seq<char>)>>), Seq<
                char,
            >>(f@))),
    {
        match m {
            None => Ok(Vec::new()),
            Some(rec) => self.feed(rec, is_start, is_end),
        }
    }
}

} // verus!
