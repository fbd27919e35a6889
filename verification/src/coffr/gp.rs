//! Either kind of COFF file, read and linked alike.
use vstd::prelude::*;

use crate::advanced::transaction::MemoryTransaction;
use crate::coffr::{CoFFR, CoFFRError, Name, ObjKind, linkable, linked_with, names_are_text, parsed, parse_kind};
use crate::coffr::cache::LinkerTransaction;
use crate::coffr::object_read::{object_kind, obj_kind};

verus! {

/// A COFF file of either kind.
pub enum GPCoffr {
    COFF(CoFFR),
    COFFBig(CoFFR),
}

/// The symbols a link gives, by the kind of file linked.
pub enum LinkIter<'a> {
    Standard(Vec<Result<(Name<'a>, u64), CoFFRError>>),
    Big(Vec<Result<(Name<'a>, u64), CoFFRError>>),
}

/// The symbols in a link's outcome, whichever kind of file was linked.
pub open spec fn items_of<'a>(r: Result<LinkIter<'a>, CoFFRError>) -> Result<Vec<Result<(Name<'a>, u64), CoFFRError>>, CoFFRError> {
    match r {
        Ok(LinkIter::Standard(v)) => Ok(v),
        Ok(LinkIter::Big(v)) => Ok(v),
        Err(e) => Err(e),
    }
}

/// The file read, whichever its kind.
pub open spec fn coffr_of(r: Result<GPCoffr, CoFFRError>) -> Result<CoFFR, CoFFRError> {
    match r {
        Ok(g) => Ok(g.coffr()),
        Err(e) => Err(e),
    }
}

impl<'a> LinkIter<'a> {
    /// The symbols, each with its final address or the error that stopped it.
    pub fn into_items(self) -> (r: Vec<Result<(Name<'a>, u64), CoFFRError>>)
        ensures
            r == match self {
                LinkIter::Standard(v) => v,
                LinkIter::Big(v) => v,
            },
    {
        match self {
            LinkIter::Standard(v) => v,
            LinkIter::Big(v) => v,
        }
    }
}

impl GPCoffr {
    /// The file, whichever its kind.
    pub open spec fn coffr(&self) -> CoFFR {
        match self {
            GPCoffr::COFF(c) => *c,
            GPCoffr::COFFBig(c) => *c,
        }
    }

    /// Reads a COFF file of either kind.
    pub fn new(bin: &[u8]) -> (r: Result<GPCoffr, CoFFRError>)
        ensures
            match object_kind(bin@) {
                None => r matches Err(CoFFRError::Object(_)),
                Some(ObjKind::Coff) => parsed(bin@, ObjKind::Coff, coffr_of(r))
                    && (r is Ok ==> r.unwrap() is COFF),
                Some(ObjKind::CoffBig) => parsed(bin@, ObjKind::CoffBig, coffr_of(r))
                    && (r is Ok ==> r.unwrap() is COFFBig),
                Some(ObjKind::Other) => r == Err::<GPCoffr, CoFFRError>(CoFFRError::InvalidObject),
            },
    {
        match obj_kind(bin) {
            Err(e) => Err(CoFFRError::Object(e)),
            Ok(ObjKind::Coff) => Ok(GPCoffr::COFF(parse_kind(bin, ObjKind::Coff)?)),
            Ok(ObjKind::CoffBig) => Ok(GPCoffr::COFFBig(parse_kind(bin, ObjKind::CoffBig)?)),
            Ok(ObjKind::Other) => Err(CoFFRError::InvalidObject),
        }
    }

    /// Links the file (see [`CoFFR::link`]); the symbols come back tagged
    /// with the kind of file.
    pub fn link<'d, 'm, 't, R: Fn(Name<'d>) -> u64>(
        &'d self,
        resolve: &R,
        memory: MemoryTransaction<'m>,
        vect: LinkerTransaction<'t>,
    ) -> (r: Result<LinkIter<'d>, CoFFRError>)
        requires
            self.coffr().wf(),
            linkable(self.coffr().image),
            forall|n: Name<'d>| call_requires(*resolve, (n,)),
            memory.wf(),
            memory.memory@.stored + 2 * self.coffr().image.sections.len() + memory.total < usize::MAX,
            vect.wf(),
            vect.entries().len() == 0,
        ensures
            final(vect.0).wf(),
            final(vect.0)@.len() == 0,
            final(memory.memory).wf(),
            !names_are_text(self.coffr().image) ==> {
                &&& items_of(r) matches Err(CoFFRError::InvalidObject)
                &&& final(memory.memory)@ == old(memory.memory)@
            },
            names_are_text(self.coffr().image) ==> linked_with(
                self.coffr().image,
                *resolve,
                old(memory.memory)@,
                memory.cursor,
                memory.writes,
                memory.total,
                final(memory.memory)@,
                items_of(r),
            ),
            r matches Ok(it) ==> (self is COFF <==> it is Standard),
    {
        match self {
            GPCoffr::COFF(coff) => Ok(LinkIter::Standard(coff.link(resolve, memory, vect)?)),
            GPCoffr::COFFBig(coff) => Ok(LinkIter::Big(coff.link(resolve, memory, vect)?)),
        }
    }
}

} // verus!
