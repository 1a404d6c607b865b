use vstd::prelude::*;

use crate::services::stitcher::Shot;

verus! {

/// What the capture service keeps between a run and the commands that read
/// its results: the screenshots of the last run and the preview of the last
/// stitched image (its bytes, or where it was saved).
pub struct CaptureStore {
    pub screenshots: Vec<Shot>,
    pub preview_png: Option<Vec<u8>>,
    pub preview_path: Option<String>,
}

impl CaptureStore {
    /// An empty store.
    pub fn new() -> (c: CaptureStore)
        ensures
            c.screenshots@.len() == 0,
            c.preview_png is None,
            c.preview_path is None,
    {
        CaptureStore { screenshots: Vec::new(), preview_png: None, preview_path: None }
    }

    /// Keeps the screenshots of a run, replacing earlier ones.
    pub fn store_screenshots(&mut self, shots: Vec<Shot>)
        ensures
            final(self).screenshots@ == shots@,
            final(self).preview_png == old(self).preview_png,
            final(self).preview_path == old(self).preview_path,
    {
        self.screenshots = shots;
    }

    /// Hands out the kept screenshots once: they are returned and the store
    /// keeps none.
    pub fn take_screenshots(&mut self) -> (r: Vec<Shot>)
        ensures
            r@ == old(self).screenshots@,
            final(self).screenshots@.len() == 0,
            final(self).preview_png == old(self).preview_png,
            final(self).preview_path == old(self).preview_path,
    {
        let mut out: Vec<Shot> = Vec::new();
        std::mem::swap(&mut out, &mut self.screenshots);
        out
    }

    /// Keeps the bytes of the preview, replacing an earlier one.
    pub fn set_preview_png(&mut self, bytes: Vec<u8>)
        ensures
            final(self).preview_png == Some(bytes),
            final(self).screenshots == old(self).screenshots,
            final(self).preview_path == old(self).preview_path,
    {
        self.preview_png = Some(bytes);
    }

    /// Hands out the preview bytes once: they are returned and the store
    /// keeps none.
    pub fn take_preview_png(&mut self) -> (r: Option<Vec<u8>>)
        ensures
            r == old(self).preview_png,
            final(self).preview_png is None,
            final(self).screenshots == old(self).screenshots,
            final(self).preview_path == old(self).preview_path,
    {
        self.preview_png.take()
    }

    /// Keeps where the preview was saved, replacing an earlier path.
    pub fn set_preview_path(&mut self, path: String)
        ensures
            final(self).preview_path == Some(path),
            final(self).screenshots == old(self).screenshots,
            final(self).preview_png == old(self).preview_png,
    {
        self.preview_path = Some(path);
    }

    /// Where the preview was saved; reading it keeps it.
    pub fn preview_path(&self) -> (r: Option<String>)
        ensures
            match (r, self.preview_path) {
                (Some(a), Some(b)) => a@ == b@,
                (None, None) => true,
                _ => false,
            },
    {
        match &self.preview_path {
            Some(p) => Some(p.clone()),
            None => None,
        }
    }
}

} // verus!
