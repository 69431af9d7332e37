//! The operations of an archive engine, as the rest of the library uses
//! them. The real engine runs `7zz`; tests and other callers may supply
//! their own.
use vstd::prelude::*;

use crate::cancel::CancelToken;
use crate::entry::ArchiveEntry;
use crate::error::EngineError;
use crate::ops::{opt_str_view, opt_strings_view, strings_view, CreateOptions};

verus! {

/// An archive engine. Implementations decide what each operation returns;
/// each may say so through the predicate that goes with the operation,
/// which by default allows any result. The operations are handed the
/// caller's progress callback and cancellation token, and the predicates
/// see them too.
pub trait ArchiveEngine: Sized {
    /// Whether `r` is a result that one listing of `archive` with
    /// `password` may give, and `depois` what the engine may be after it.
    open spec fn listou(
        &self,
        archive: Seq<char>,
        password: Option<Seq<char>>,
        r: Result<Vec<ArchiveEntry>, EngineError>,
        depois: Self,
    ) -> bool {
        true
    }

    /// Whether `r` is a result that extracting `entries` (all when none)
    /// of `archive` into `dest` with `password`, reporting to
    /// `on_progress` and watching `cancel`, may give.
    open spec fn extraiu<F: FnMut(u8)>(
        &self,
        archive: Seq<char>,
        dest: Seq<char>,
        entries: Option<Seq<Seq<char>>>,
        password: Option<Seq<char>>,
        on_progress: F,
        cancel: CancelToken,
        r: Result<(), EngineError>,
    ) -> bool {
        true
    }

    /// Whether `r` is a result that creating `archive` of `inputs` with
    /// `options`, reporting to `on_progress` and watching `cancel`, may
    /// give.
    open spec fn criou<F: FnMut(u8)>(
        &self,
        archive: Seq<char>,
        inputs: Seq<Seq<char>>,
        options: CreateOptions,
        on_progress: F,
        cancel: CancelToken,
        r: Result<(), EngineError>,
    ) -> bool {
        true
    }

    /// Whether `r` is a result that testing `archive` with `password`,
    /// reporting to `on_progress` and watching `cancel`, may give.
    open spec fn testou<F: FnMut(u8)>(
        &self,
        archive: Seq<char>,
        password: Option<Seq<char>>,
        on_progress: F,
        cancel: CancelToken,
        r: Result<(), EngineError>,
    ) -> bool {
        true
    }

    /// The entries of an archive. The listing may change the engine's
    /// own state (a count of listings, say); `listou` relates the engine
    /// before and after it.
    fn list(&mut self, archive: &str, password: Option<&str>) -> (r: Result<
        Vec<ArchiveEntry>,
        EngineError,
    >)
        ensures
            old(self).listou(archive@, opt_str_view(password), r, *final(self)),
    ;

    /// Extracts an archive, or the selected entries of it, into `dest`,
    /// reporting progress in percent.
    fn extract<F: FnMut(u8)>(
        &self,
        archive: &str,
        dest: &str,
        entries: Option<&[String]>,
        password: Option<&str>,
        on_progress: &mut F,
        cancel: &CancelToken,
    ) -> (r: Result<(), EngineError>)
        ensures
            self.extraiu(
                archive@,
                dest@,
                opt_strings_view(entries),
                opt_str_view(password),
                *old(on_progress),
                *cancel,
                r,
            ),
    ;

    /// Creates an archive of the given inputs.
    fn create<F: FnMut(u8)>(
        &self,
        archive: &str,
        inputs: &[String],
        options: &CreateOptions,
        on_progress: &mut F,
        cancel: &CancelToken,
    ) -> (r: Result<(), EngineError>)
        ensures
            self.criou(archive@, strings_view(inputs@), *options, *old(on_progress), *cancel, r),
    ;

    /// Tests the integrity of an archive.
    fn test<F: FnMut(u8)>(
        &self,
        archive: &str,
        password: Option<&str>,
        on_progress: &mut F,
        cancel: &CancelToken,
    ) -> (r: Result<(), EngineError>)
        ensures
            self.testou(archive@, opt_str_view(password), *old(on_progress), *cancel, r),
    ;
}

} // verus!
