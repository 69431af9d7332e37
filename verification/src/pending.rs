//! The files that the system asked the program to open (a file URL per
//! document), kept until the window takes them.
use vstd::prelude::*;

use crate::file_url::{file_url_bytes_para_path, spec_file_url_path};

verus! {

/// The paths received and not yet taken, in the order received.
pub struct Pendentes {
    paths: Vec<String>,
}

impl View for Pendentes {
    type V = Seq<Seq<char>>;

    closed spec fn view(&self) -> Seq<Seq<char>> {
        self.paths@.map_values(|p: String| p@)
    }
}

impl Pendentes {
    /// Nothing received yet.
    pub fn new() -> (r: Pendentes)
        ensures
            r@ == Seq::<Seq<char>>::empty(),
    {
        Pendentes { paths: Vec::new() }
    }

    /// Keeps the path of a file URL; a URL that names no path is ignored.
    /// Gives whether a path was kept.
    pub fn receber_url(&mut self, url: &[u8]) -> (kept: bool)
        ensures
            kept == spec_file_url_path(url@) is Some,
            final(self)@ == match spec_file_url_path(url@) {
                Some(p) => old(self)@.push(p),
                None => old(self)@,
            },
    {
        match file_url_bytes_para_path(url) {
            Some(p) => {
                let ghost before = self@;
                self.paths.push(p);
                assert(self@ =~= before.push(spec_file_url_path(url@)->0));
                true
            },
            None => false,
        }
    }

    /// Handles one item of an "open documents" event: `buf` holds the
    /// bytes that the system wrote, `actual` how many it had for the item
    /// (more than fit in `buf` is cut to `buf`), `err` its status. An item
    /// read without error and not empty is taken as a file URL.
    pub fn receber_item(&mut self, err: i16, buf: &[u8], actual: isize) -> (kept: bool)
        ensures
            ({
                let url = buf@.take(if actual < buf@.len() {
                    actual as int
                } else {
                    buf@.len() as int
                });
                if err == 0 && actual > 0 {
                    &&& kept == spec_file_url_path(url) is Some
                    &&& final(self)@ == match spec_file_url_path(url) {
                        Some(p) => old(self)@.push(p),
                        None => old(self)@,
                    }
                } else {
                    !kept && final(self)@ == old(self)@
                }
            }),
    {
        if err != 0 || actual <= 0 {
            return false;
        }
        let n: usize = if (actual as usize) < buf.len() {
            actual as usize
        } else {
            buf.len()
        };
        let url = vstd::slice::slice_subrange(buf, 0, n);
        assert(url@ == buf@.take(n as int));
        self.receber_url(url)
    }

    /// Drains the paths received since the last call, in the order
    /// received.
    pub fn take_pending(&mut self) -> (r: Vec<String>)
        ensures
            r@.map_values(|p: String| p@) == old(self)@,
            final(self)@ == Seq::<Seq<char>>::empty(),
    {
        let mut vazio: Vec<String> = Vec::new();
        std::mem::swap(&mut vazio, &mut self.paths);
        assert(self@ =~= Seq::<Seq<char>>::empty());
        vazio
    }
}

/// The four-character code of an Apple event or descriptor type: the
/// four bytes, most significant first.
pub fn fourcc(b: &[u8; 4]) -> (r: u32)
    ensures
        r == b@[0] as int * 0x100_0000 + b@[1] as int * 0x1_0000 + b@[2] as int * 0x100 + b@[3] as int,
{
    (b[0] as u32) * 0x100_0000 + (b[1] as u32) * 0x1_0000 + (b[2] as u32) * 0x100 + (b[3] as u32)
}

} // verus!
