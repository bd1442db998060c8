//! Importing several external videos at once: the counts, ids and errors
//! reported, and the texts shown while it runs.
use vstd::prelude::*;

use crate::decimal::{nat_digits, push_u64_digits};
use crate::paths::{file_stem_spec, path_file_stem};
use crate::text::{chars_of, extend_chars, string_from_chars};

verus! {

/// What a batch import reports.
#[derive(Debug)]
pub struct BatchImportResult {
    pub successful_imports: i32,
    pub failed_imports: i32,
    pub imported_video_ids: Vec<i64>,
    pub errors: Vec<String>,
}

impl BatchImportResult {
    /// The counts agree with the lists: one id per success, one error per
    /// failure.
    pub open spec fn wf(&self) -> bool {
        &&& self.successful_imports == self.imported_video_ids@.len()
        &&& self.failed_imports == self.errors@.len()
    }

    /// Nothing imported yet (also the report of an empty batch).
    pub fn new() -> (r: BatchImportResult)
        ensures
            r.wf(),
            r.successful_imports == 0,
            r.failed_imports == 0,
    {
        BatchImportResult {
            successful_imports: 0,
            failed_imports: 0,
            imported_video_ids: Vec::new(),
            errors: Vec::new(),
        }
    }

    /// A file was imported as video `video_id`.
    pub fn record_success(&mut self, video_id: i64)
        requires
            old(self).wf(),
            old(self).successful_imports < i32::MAX,
        ensures
            final(self).wf(),
            final(self).successful_imports == old(self).successful_imports + 1,
            final(self).failed_imports == old(self).failed_imports,
            final(self).imported_video_ids@ == old(self).imported_video_ids@.push(video_id),
            final(self).errors@ == old(self).errors@,
    {
        self.imported_video_ids.push(video_id);
        self.successful_imports = self.successful_imports + 1;
    }

    /// Importing `file_path` failed with `error`; the report keeps
    /// `导入失败 {file_path}: {error}`.
    pub fn record_failure(&mut self, file_path: &str, error: &str)
        requires
            old(self).wf(),
            old(self).failed_imports < i32::MAX,
        ensures
            final(self).wf(),
            final(self).failed_imports == old(self).failed_imports + 1,
            final(self).successful_imports == old(self).successful_imports,
            final(self).imported_video_ids@ == old(self).imported_video_ids@,
            final(self).errors@.len() == old(self).errors@.len() + 1,
            forall|i: int| 0 <= i < old(self).errors@.len() ==> #[trigger] final(self).errors@[i] == old(self).errors@[i],
            final(self).errors@.last()@ == "导入失败 "@ + file_path@ + ": "@ + error@,
    {
        let mut v = chars_of("导入失败 ");
        extend_chars(&mut v, &chars_of(file_path));
        extend_chars(&mut v, &chars_of(": "));
        extend_chars(&mut v, &chars_of(error));
        self.errors.push(string_from_chars(&v));
        self.failed_imports = self.failed_imports + 1;
    }

    /// The message at the end: the number imported, and the number failed
    /// when any did.
    pub fn summary(&self) -> (r: String)
        requires
            self.successful_imports >= 0,
            self.failed_imports >= 0,
        ensures
            r@ == (if self.failed_imports == 0 {
                "批量导入完成：成功导入"@ + nat_digits(self.successful_imports as nat) + "个文件"@
            } else {
                "批量导入完成：成功"@ + nat_digits(self.successful_imports as nat) + "个，失败"@
                    + nat_digits(self.failed_imports as nat) + "个"@
            }),
    {
        if self.failed_imports == 0 {
            let mut v = chars_of("批量导入完成：成功导入");
            push_u64_digits(&mut v, self.successful_imports as u64);
            extend_chars(&mut v, &chars_of("个文件"));
            string_from_chars(&v)
        } else {
            let mut v = chars_of("批量导入完成：成功");
            push_u64_digits(&mut v, self.successful_imports as u64);
            extend_chars(&mut v, &chars_of("个，失败"));
            push_u64_digits(&mut v, self.failed_imports as u64);
            extend_chars(&mut v, &chars_of("个"));
            string_from_chars(&v)
        }
    }
}

/// The title of an imported file: its name without the extension, or
/// `unknown`.
pub fn batch_import_title(file_path: &str) -> (r: String)
    ensures
        r@ == match file_stem_spec(file_path@) {
            Some(s) => s,
            None => "unknown"@,
        },
{
    match path_file_stem(&chars_of(file_path)) {
        Some(s) => string_from_chars(&s),
        None => "unknown".to_owned(),
    }
}

/// The progress shown while importing file `current` of `total`.
pub fn batch_progress_message(current: usize, total: usize) -> (r: String)
    ensures
        r@ == "正在导入第"@ + nat_digits(current as nat) + "个，共"@ + nat_digits(total as nat) + "个文件"@,
{
    let mut v = chars_of("正在导入第");
    push_u64_digits(&mut v, current as u64);
    extend_chars(&mut v, &chars_of("个，共"));
    push_u64_digits(&mut v, total as u64);
    extend_chars(&mut v, &chars_of("个文件"));
    string_from_chars(&v)
}

/// The progress event of the file at `index` of a batch: `{event_id}_file_{index}`.
pub fn batch_file_event_id(event_id: &str, index: usize) -> (r: String)
    ensures
        r@ == event_id@ + "_file_"@ + nat_digits(index as nat),
{
    let mut v = chars_of(event_id);
    extend_chars(&mut v, &chars_of("_file_"));
    push_u64_digits(&mut v, index as u64);
    string_from_chars(&v)
}

} // verus!
