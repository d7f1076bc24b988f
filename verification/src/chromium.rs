//! Headless Chromium: where to find the executable, which targets it may load,
//! what a screenshot request may ask for, and how process output is bounded.
//!
//! Paths are held as their text, and two paths are the same when their
//! components are (as `Path` compares them with `/` as the separator). Spawning the process and reading its output are
//! left to the caller, which reports each chunk it reads.
use vstd::prelude::*;
use crate::text::{chars_of, eq_lit, lower_seq, lower_seq_eq, push_char, split};
use crate::web_url::{UrlHost, UrlParts};

verus! {

pub const MAX_SCREENSHOT_DIMENSION: u32 = 8192;

pub const MAX_SCREENSHOT_PIXELS: u64 = 33554432;

pub const MAX_SCREENSHOT_BYTES: usize = 67108864;

/// How a Chromium run is bounded: a time limit, the most output kept from each
/// stream, and where its temporary profile goes.
#[derive(Debug, Clone)]
pub struct ChromiumExecutionPolicy {
    pub timeout_ms: u64,
    pub max_stdout_bytes: usize,
    pub max_stderr_bytes: usize,
    pub temp_root: String,
}

/// What was kept of a process's output stream.
#[derive(Debug, Clone)]
pub struct BoundedProcessOutput {
    pub retained: Vec<u8>,
    pub total_bytes: usize,
    pub truncated: bool,
}

#[derive(Debug, Clone)]
pub struct ChromiumExecutionReceipt {
    pub exit_code: Option<i32>,
    pub stdout: BoundedProcessOutput,
    pub stderr: BoundedProcessOutput,
}

#[derive(Debug, Clone, Copy, PartialEq, Eq, Structural)]
pub struct ChromiumScreenshotRequest {
    pub pixel_width: u32,
    pub pixel_height: u32,
    pub max_png_bytes: usize,
}

#[derive(Debug, Clone)]
pub struct ChromiumRenderedScreenshotReceipt {
    pub exit_code: Option<i32>,
    pub pixel_width: u32,
    pub pixel_height: u32,
    pub png: Vec<u8>,
    pub stdout: BoundedProcessOutput,
    pub stderr: BoundedProcessOutput,
}

#[derive(Debug, Clone, Copy, PartialEq, Eq, Structural)]
pub enum ChromiumPlatform {
    Linux,
    Macos,
    Windows,
}

/// Where to look for Chromium: an explicit executable, the `PATH` directories, and
/// the home and program directories of the platform.
#[derive(Debug, Clone)]
pub struct ChromiumDiscoveryContext {
    pub explicit_executable: Option<String>,
    pub path_dirs: Vec<String>,
    pub home_dir: Option<String>,
    pub program_files: Option<String>,
    pub program_files_x86: Option<String>,
    pub local_app_data: Option<String>,
}

impl Default for ChromiumDiscoveryContext {
    /// No explicit executable, no `PATH` directories and no known directories.
    fn default() -> (r: Self)
        ensures
            r.explicit_executable is None,
            r.path_dirs@.len() == 0,
            r.home_dir is None,
            r.program_files is None,
            r.program_files_x86 is None,
            r.local_app_data is None,
    {
        ChromiumDiscoveryContext {
            explicit_executable: None,
            path_dirs: Vec::new(),
            home_dir: None,
            program_files: None,
            program_files_x86: None,
            local_app_data: None,
        }
    }
}

#[derive(Debug, Clone, Copy, PartialEq, Eq, Structural)]
pub enum ChromiumExecutorError {
    InvalidTarget,
    Profile,
    Spawn,
    Io,
    Timeout,
    ScreenshotTooLarge,
    InvalidScreenshot,
    Cleanup,
}

/// Whether a screenshot request asks for a size Chromium may render: both sides
/// at least one and at most 8192 pixels, at most 33554432 pixels in all, and a
/// positive byte limit.
pub open spec fn screenshot_request_ok(r: ChromiumScreenshotRequest) -> bool {
    &&& r.pixel_width != 0
    &&& r.pixel_height != 0
    &&& r.pixel_width <= MAX_SCREENSHOT_DIMENSION
    &&& r.pixel_height <= MAX_SCREENSHOT_DIMENSION
    &&& r.pixel_width * r.pixel_height <= MAX_SCREENSHOT_PIXELS
    &&& r.max_png_bytes != 0
}

/// Checks a screenshot request.
pub fn validate_screenshot_request(request: &ChromiumScreenshotRequest) -> (r: Result<
    (),
    ChromiumExecutorError,
>)
    ensures
        r is Ok <==> screenshot_request_ok(*request),
        r is Err ==> r == Err::<(), ChromiumExecutorError>(ChromiumExecutorError::InvalidScreenshot),
{
    if request.pixel_width == 0 || request.pixel_height == 0 || request.pixel_width
        > MAX_SCREENSHOT_DIMENSION || request.pixel_height > MAX_SCREENSHOT_DIMENSION {
        return Err(ChromiumExecutorError::InvalidScreenshot);
    }
    let w = request.pixel_width as u64;
    let h = request.pixel_height as u64;
    proof {
        assert(w * h <= 8192 * 8192) by (nonlinear_arith)
            requires
                w <= 8192,
                h <= 8192,
        ;
    }
    if w * h > MAX_SCREENSHOT_PIXELS || request.max_png_bytes == 0 {
        return Err(ChromiumExecutorError::InvalidScreenshot);
    }
    Ok(())
}

/// The PNG file signature.
pub open spec fn png_signature() -> Seq<u8> {
    seq![137u8, 80u8, 78u8, 71u8, 13u8, 10u8, 26u8, 10u8]
}

/// A big-endian 32-bit number from four bytes starting at `at`.
pub open spec fn be32(b: Seq<u8>, at: int) -> int {
    b[at] as int * 16777216 + b[at + 1] as int * 65536 + b[at + 2] as int * 256 + b[at + 3] as int
}

/// The image size a PNG header declares: the signature, then an `IHDR` chunk of
/// 13 bytes whose first eight bytes are the width and height, neither of them zero.
pub open spec fn png_size(png: Seq<u8>) -> Option<(u32, u32)> {
    if png.len() >= 24 && png.take(8) == png_signature() && be32(png, 8) == 13 && png.subrange(
        12,
        16,
    ) == seq![73u8, 72u8, 68u8, 82u8] && be32(png, 16) != 0 && be32(png, 20) != 0 {
        Some((be32(png, 16) as u32, be32(png, 20) as u32))
    } else {
        None
    }
}

fn read_be32(b: &[u8], at: usize) -> (r: u32)
    requires
        at + 4 <= b@.len(),
    ensures
        r as int == be32(b@, at as int),
{
    let v: u64 = (b[at] as u64) * 16777216 + (b[at + 1] as u64) * 65536 + (b[at + 2] as u64) * 256
        + (b[at + 3] as u64);
    v as u32
}

/// The width and height a PNG declares in its header.
pub fn png_dimensions(png: &[u8]) -> (r: Result<(u32, u32), ChromiumExecutorError>)
    ensures
        match png_size(png@) {
            Some(size) => r == Ok::<(u32, u32), ChromiumExecutorError>(size),
            None => r == Err::<(u32, u32), ChromiumExecutorError>(
                ChromiumExecutorError::InvalidScreenshot,
            ),
        },
{
    if png.len() < 24 {
        return Err(ChromiumExecutorError::InvalidScreenshot);
    }
    let signature: [u8; 8] = [137, 80, 78, 71, 13, 10, 26, 10];
    let mut i: usize = 0;
    while i < 8
        invariant
            png@.len() >= 24,
            signature@ == png_signature(),
            i <= 8,
            forall|k: int| 0 <= k < i ==> png@[k] == signature@[k],
        decreases 8 - i,
    {
        if png[i] != signature[i] {
            return Err(ChromiumExecutorError::InvalidScreenshot);
        }
        i += 1;
    }
    proof {
        assert(png@.take(8) == png_signature());
    }
    if read_be32(png, 8) != 13 {
        return Err(ChromiumExecutorError::InvalidScreenshot);
    }
    if png[12] != 73 || png[13] != 72 || png[14] != 68 || png[15] != 82 {
        proof {
            assert(png@.subrange(12, 16)[0] == png@[12]);
            assert(png@.subrange(12, 16)[1] == png@[13]);
            assert(png@.subrange(12, 16)[2] == png@[14]);
            assert(png@.subrange(12, 16)[3] == png@[15]);
        }
        return Err(ChromiumExecutorError::InvalidScreenshot);
    }
    proof {
        assert(png@.subrange(12, 16) == seq![73u8, 72u8, 68u8, 82u8]);
    }
    let width = read_be32(png, 16);
    let height = read_be32(png, 20);
    if width == 0 || height == 0 {
        return Err(ChromiumExecutorError::InvalidScreenshot);
    }
    Ok((width, height))
}

/// The most bytes a screenshot may have: the request's limit, capped at 64 MiB.
pub open spec fn screenshot_byte_limit(request: ChromiumScreenshotRequest) -> usize {
    if request.max_png_bytes < MAX_SCREENSHOT_BYTES {
        request.max_png_bytes
    } else {
        MAX_SCREENSHOT_BYTES
    }
}

/// The most bytes a screenshot may have.
pub fn effective_screenshot_limit(request: &ChromiumScreenshotRequest) -> (r: usize)
    ensures
        r == screenshot_byte_limit(*request),
{
    if request.max_png_bytes < MAX_SCREENSHOT_BYTES {
        request.max_png_bytes
    } else {
        MAX_SCREENSHOT_BYTES
    }
}

/// Checks the bytes of a rendered screenshot: within the byte limit, a PNG, and of
/// the requested size; gives the size.
pub fn validate_screenshot_bytes(png: &[u8], request: &ChromiumScreenshotRequest) -> (r: Result<
    (u32, u32),
    ChromiumExecutorError,
>)
    ensures
        png@.len() > screenshot_byte_limit(*request) ==> r == Err::<(u32, u32), ChromiumExecutorError>(
            ChromiumExecutorError::ScreenshotTooLarge,
        ),
        png@.len() <= screenshot_byte_limit(*request) ==> r == match png_size(png@) {
            Some(size) => if size.0 == request.pixel_width && size.1 == request.pixel_height {
                Ok::<(u32, u32), ChromiumExecutorError>(size)
            } else {
                Err(ChromiumExecutorError::InvalidScreenshot)
            },
            None => Err(ChromiumExecutorError::InvalidScreenshot),
        },
{
    if png.len() > effective_screenshot_limit(request) {
        return Err(ChromiumExecutorError::ScreenshotTooLarge);
    }
    let (width, height) = png_dimensions(png)?;
    if width != request.pixel_width || height != request.pixel_height {
        return Err(ChromiumExecutorError::InvalidScreenshot);
    }
    Ok((width, height))
}

/// Output read from a process stream so far, keeping at most a fixed number of
/// bytes and counting all of them.
pub struct BoundedReader {
    retained: Vec<u8>,
    total_bytes: usize,
    max_retained_bytes: usize,
}

pub open spec fn sat_add_usize(a: usize, b: usize) -> usize {
    if a + b > usize::MAX {
        usize::MAX
    } else {
        (a + b) as usize
    }
}

impl BoundedReader {
    pub closed spec fn spec_retained(&self) -> Seq<u8> {
        self.retained@
    }

    pub closed spec fn spec_total(&self) -> usize {
        self.total_bytes
    }

    pub closed spec fn spec_max(&self) -> usize {
        self.max_retained_bytes
    }

    /// Nothing read yet.
    pub fn new(max_retained_bytes: usize) -> (r: Self)
        ensures
            r.spec_retained().len() == 0,
            r.spec_total() == 0,
            r.spec_max() == max_retained_bytes,
    {
        BoundedReader { retained: Vec::new(), total_bytes: 0, max_retained_bytes }
    }

    /// Takes in a chunk read from the stream: it counts in full, and as much of its
    /// beginning as there is room for is kept.
    pub fn absorb(&mut self, chunk: &[u8])
        requires
            old(self).spec_retained().len() <= old(self).spec_max(),
        ensures
            final(self).spec_max() == old(self).spec_max(),
            final(self).spec_total() == sat_add_usize(old(self).spec_total(), chunk@.len() as usize),
            final(self).spec_retained() == old(self).spec_retained() + chunk@.take(
                if chunk@.len() < old(self).spec_max() - old(self).spec_retained().len() {
                    chunk@.len() as int
                } else {
                    old(self).spec_max() - old(self).spec_retained().len()
                },
            ),
            final(self).spec_retained().len() <= final(self).spec_max(),
    {
        self.total_bytes = self.total_bytes.saturating_add(chunk.len());
        let remaining = self.max_retained_bytes - self.retained.len();
        let keep = if chunk.len() < remaining {
            chunk.len()
        } else {
            remaining
        };
        let mut i: usize = 0;
        let ghost start = self.retained@;
        let ghost total = self.total_bytes;
        while i < keep
            invariant
                keep <= chunk@.len(),
                start.len() + keep <= self.max_retained_bytes,
                self.max_retained_bytes == old(self).max_retained_bytes,
                self.total_bytes == total,
                i <= keep,
                self.retained@ == start + chunk@.take(i as int),
            decreases keep - i,
        {
            self.retained.push(chunk[i]);
            proof {
                assert(chunk@.take(i + 1) == chunk@.take(i as int).push(chunk@[i as int]));
            }
            i += 1;
        }
    }

    /// What was kept, how much was read, and whether some of it was not kept.
    pub fn finish(self) -> (r: BoundedProcessOutput)
        ensures
            r.retained@ == self.spec_retained(),
            r.total_bytes == self.spec_total(),
            r.truncated == (self.spec_total() > self.spec_retained().len()),
    {
        let truncated = self.total_bytes > self.retained.len();
        BoundedProcessOutput { retained: self.retained, total_bytes: self.total_bytes, truncated }
    }
}

pub open spec fn texts(v: Seq<String>) -> Seq<Seq<char>> {
    v.map_values(|s: String| s@)
}

/// A path with its trailing separators removed: `/`, and `\\` too on Windows.
pub open spec fn trim_separators(s: Seq<char>, windows: bool) -> Seq<char>
    decreases s.len(),
{
    if s.len() > 0 && (s.last() == '/' || (windows && s.last() == '\\')) {
        trim_separators(s.drop_last(), windows)
    } else {
        s
    }
}

/// A text with every `from` replaced by `to`.
pub open spec fn replace_char(s: Seq<char>, from: char, to: char) -> Seq<char> {
    s.map_values(|c: char| if c == from {
        to
    } else {
        c
    })
}

/// A relative path under a base directory, with the platform's separator.
pub open spec fn joined(p: ChromiumPlatform, base: Seq<char>, relative: Seq<char>) -> Seq<char> {
    if p == ChromiumPlatform::Windows {
        trim_separators(base, true) + seq!['\\'] + replace_char(relative, '/', '\\')
    } else {
        trim_separators(base, false) + seq!['/'] + replace_char(relative, '\\', '/')
    }
}

/// Joins a relative path to a base directory with the platform's separator.
pub fn platform_join(platform: ChromiumPlatform, base: &String, relative: &str) -> (r: String)
    ensures
        r@ == joined(platform, base@, relative@),
{
    let windows = platform == ChromiumPlatform::Windows;
    let b = chars_of(base.as_str());
    let mut end: usize = b.len();
    proof {
        assert(b@.take(end as int) == b@);
    }
    while end > 0 && (b[end - 1] == '/' || (windows && b[end - 1] == '\\'))
        invariant
            end <= b@.len(),
            trim_separators(b@, windows) == trim_separators(b@.take(end as int), windows),
        decreases end,
    {
        proof {
            assert(b@.take(end as int).drop_last() == b@.take(end - 1));
        }
        end -= 1;
    }
    let mut out = String::new();
    let mut i: usize = 0;
    while i < end
        invariant
            end <= b@.len(),
            i <= end,
            out@ == b@.take(i as int),
        decreases end - i,
    {
        push_char(&mut out, b[i]);
        proof {
            assert(b@.take(i + 1) == b@.take(i as int).push(b@[i as int]));
        }
        i += 1;
    }
    let (sep, from) = if windows {
        ('\\', '/')
    } else {
        ('/', '\\')
    };
    push_char(&mut out, sep);
    let rel = chars_of(relative);
    let ghost head = out@;
    let mut j: usize = 0;
    while j < rel.len()
        invariant
            j <= rel@.len(),
            out@ == head + replace_char(rel@.take(j as int), from, sep),
        decreases rel@.len() - j,
    {
        let c = if rel[j] == from {
            sep
        } else {
            rel[j]
        };
        push_char(&mut out, c);
        proof {
            assert(replace_char(rel@.take(j + 1), from, sep) == replace_char(rel@.take(j as int), from, sep).push(c));
        }
        j += 1;
    }
    proof {
        assert(rel@.take(j as int) == rel@);
        assert(b@.take(end as int) == trim_separators(b@.take(end as int), windows));
    }
    out
}

/// Each executable name joined to each `PATH` directory, name by name.
pub open spec fn path_candidates(p: ChromiumPlatform, dirs: Seq<Seq<char>>, names: Seq<Seq<char>>) -> Seq<
    Seq<char>,
>
    decreases names.len(),
{
    if names.len() == 0 {
        Seq::empty()
    } else {
        path_candidates(p, dirs, names.drop_last()) + dirs.map_values(
            |d: Seq<char>| joined(p, d, names.last()),
        )
    }
}

pub open spec fn opt_list(o: Option<String>) -> Seq<Seq<char>> {
    match o {
        Some(s) => seq![s@],
        None => Seq::empty(),
    }
}

/// Every place to look for Chromium, in order, before repeats are dropped: the
/// explicit executable, then the platform's own places.
pub open spec fn raw_candidates(p: ChromiumPlatform, c: ChromiumDiscoveryContext) -> Seq<Seq<char>> {
    let dirs = texts(c.path_dirs@);
    opt_list(c.explicit_executable) + match p {
        ChromiumPlatform::Linux => path_candidates(
            p,
            dirs,
            seq![
                "google-chrome"@,
                "google-chrome-stable"@,
                "chromium"@,
                "chromium-browser"@,
            ],
        ),
        ChromiumPlatform::Macos => seq![
            "/Applications/Google Chrome.app/Contents/MacOS/Google Chrome"@,
            "/Applications/Chromium.app/Contents/MacOS/Chromium"@,
        ] + match c.home_dir {
            Some(h) => seq![
                joined(p, h@, "Applications/Google Chrome.app/Contents/MacOS/Google Chrome"@),
                joined(p, h@, "Applications/Chromium.app/Contents/MacOS/Chromium"@),
            ],
            None => Seq::empty(),
        } + path_candidates(p, dirs, seq!["google-chrome"@, "chromium"@]),
        ChromiumPlatform::Windows => {
            let roots = opt_list(c.local_app_data) + opt_list(c.program_files) + opt_list(
                c.program_files_x86,
            );
            roots.map_values(|r: Seq<char>| joined(p, r, "Google\\Chrome\\Application\\chrome.exe"@))
                + roots.map_values(
                |r: Seq<char>| joined(p, r, "Chromium\\Application\\chrome.exe"@),
            ) + path_candidates(p, dirs, seq!["chrome.exe"@, "chromium.exe"@])
        },
    }
}

/// A list with each entry kept at its first place only.
/// The components a path's pieces between `/` give: empty pieces and `.` leave
/// no component.
pub open spec fn path_parts(pieces: Seq<Seq<char>>) -> Seq<Seq<char>>
    decreases pieces.len(),
{
    if pieces.len() == 0 {
        Seq::empty()
    } else {
        let r = path_parts(pieces.drop_last());
        let x = pieces.last();
        if x.len() == 0 || x == seq!['.'] {
            r
        } else {
            r.push(x)
        }
    }
}

/// What a path is compared by (`Path::components`, `/` the separator): whether it
/// begins at the root, whether it begins with the current directory (`.` alone or
/// before a separator), and its named components.
pub open spec fn path_key(s: Seq<char>) -> (bool, bool, Seq<Seq<char>>) {
    (
        s.len() > 0 && s[0] == '/',
        s.len() > 0 && s[0] == '.' && (s.len() == 1 || s[1] == '/'),
        path_parts(split(s, '/')),
    )
}

/// Two paths that `Path`'s `==` finds equal.
pub open spec fn same_path(a: Seq<char>, b: Seq<char>) -> bool {
    path_key(a) == path_key(b)
}

/// Whether a list holds a path equal to `x`.
pub open spec fn has_path(r: Seq<Seq<char>>, x: Seq<char>) -> bool {
    exists|i: int| 0 <= i < r.len() && same_path(#[trigger] r[i], x)
}

/// No two entries of a list are the same path.
pub open spec fn distinct_paths(r: Seq<Seq<char>>) -> bool {
    forall|i: int, j: int| 0 <= i < j < r.len() ==> !same_path(#[trigger] r[i], #[trigger] r[j])
}

pub open spec fn dedup_first(s: Seq<Seq<char>>) -> Seq<Seq<char>>
    decreases s.len(),
{
    if s.len() == 0 {
        Seq::empty()
    } else {
        let r = dedup_first(s.drop_last());
        if has_path(r, s.last()) {
            r
        } else {
            r.push(s.last())
        }
    }
}

/// The places to look for Chromium on a platform, in order, each once.
pub open spec fn candidate_list(p: ChromiumPlatform, c: ChromiumDiscoveryContext) -> Seq<Seq<char>> {
    dedup_first(raw_candidates(p, c))
}

fn push_text(out: &mut Vec<String>, s: String)
    ensures
        texts(final(out)@) == texts(old(out)@).push(s@),
{
    let ghost before = texts(out@);
    out.push(s);
    proof {
        assert(texts(out@) == before.push(s@));
    }
}

fn push_opt(out: &mut Vec<String>, o: &Option<String>)
    ensures
        texts(final(out)@) == texts(old(out)@) + opt_list(*o),
{
    match o {
        Some(s) => {
            push_text(out, s.clone());
            proof {
                assert(texts(out@) == texts(old(out)@) + opt_list(*o));
            }
        },
        None => {
            proof {
                assert(texts(out@) == texts(old(out)@) + opt_list(*o));
            }
        },
    }
}

/// Adds each executable name joined to each `PATH` directory, name by name.
fn push_path_candidates(
    out: &mut Vec<String>,
    platform: ChromiumPlatform,
    path_dirs: &Vec<String>,
    names: &Vec<String>,
)
    ensures
        texts(final(out)@) == texts(old(out)@) + path_candidates(
            platform,
            texts(path_dirs@),
            texts(names@),
        ),
{
    let ghost start = texts(out@);
    let ghost dirs = texts(path_dirs@);
    let mut n: usize = 0;
    proof {
        assert(texts(names@).take(0) == Seq::<Seq<char>>::empty());
        assert(texts(out@) == start + path_candidates(platform, dirs, texts(names@).take(0)));
    }
    while n < names.len()
        invariant
            n <= names@.len(),
            dirs == texts(path_dirs@),
            texts(out@) == start + path_candidates(platform, dirs, texts(names@).take(n as int)),
        decreases names@.len() - n,
    {
        let ghost mid = texts(out@);
        let mut d: usize = 0;
        while d < path_dirs.len()
            invariant
                d <= path_dirs@.len(),
                n < names@.len(),
                dirs == texts(path_dirs@),
                texts(out@) == mid + dirs.take(d as int).map_values(
                    |x: Seq<char>| joined(platform, x, names@[n as int]@),
                ),
            decreases path_dirs@.len() - d,
        {
            let j = platform_join(platform, &path_dirs[d], names[n].as_str());
            let ghost before = texts(out@);
            push_text(out, j);
            proof {
                assert(dirs.take(d + 1).map_values(|x: Seq<char>| joined(platform, x, names@[n as int]@))
                    == dirs.take(d as int).map_values(
                    |x: Seq<char>| joined(platform, x, names@[n as int]@),
                ).push(joined(platform, dirs[d as int], names@[n as int]@)));
            }
            d += 1;
        }
        proof {
            assert(dirs.take(d as int) == dirs);
            let nm = texts(names@).take(n + 1);
            assert(nm.drop_last() == texts(names@).take(n as int));
            assert(nm.last() == names@[n as int]@);
            assert(path_candidates(platform, dirs, nm) == path_candidates(
                platform,
                dirs,
                texts(names@).take(n as int),
            ) + dirs.map_values(|x: Seq<char>| joined(platform, x, names@[n as int]@)));
        }
        n += 1;
    }
    proof {
        assert(texts(names@).take(n as int) == texts(names@));
    }
}

fn names_of(a: &str, b: &str) -> (r: Vec<String>)
    ensures
        texts(r@) == seq![a@, b@],
{
    let mut v: Vec<String> = Vec::new();
    push_text(&mut v, a.to_owned());
    push_text(&mut v, b.to_owned());
    v
}

/// Every place to look for Chromium, in order, before repeats are dropped.
fn raw_candidate_paths(platform: ChromiumPlatform, context: &ChromiumDiscoveryContext) -> (r: Vec<
    String,
>)
    ensures
        texts(r@) == raw_candidates(platform, *context),
{
    let mut out: Vec<String> = Vec::new();
    push_opt(&mut out, &context.explicit_executable);
    let ghost head = texts(out@);
    match platform {
        ChromiumPlatform::Linux => {
            let mut names = names_of("google-chrome", "google-chrome-stable");
            push_text(&mut names, "chromium".to_owned());
            push_text(&mut names, "chromium-browser".to_owned());
            proof {
                assert(texts(names@) == seq![
                    "google-chrome"@,
                    "google-chrome-stable"@,
                    "chromium"@,
                    "chromium-browser"@,
                ]);
            }
            push_path_candidates(&mut out, platform, &context.path_dirs, &names);
        },
        ChromiumPlatform::Macos => {
            push_text(&mut out, "/Applications/Google Chrome.app/Contents/MacOS/Google Chrome".to_owned());
            push_text(&mut out, "/Applications/Chromium.app/Contents/MacOS/Chromium".to_owned());
            let ghost bundles = texts(out@);
            match &context.home_dir {
                Some(home) => {
                    let a = platform_join(
                        platform,
                        home,
                        "Applications/Google Chrome.app/Contents/MacOS/Google Chrome",
                    );
                    push_text(&mut out, a);
                    let b = platform_join(platform, home, "Applications/Chromium.app/Contents/MacOS/Chromium");
                    push_text(&mut out, b);
                },
                None => {},
            }
            let ghost homes = texts(out@);
            let names = names_of("google-chrome", "chromium");
            push_path_candidates(&mut out, platform, &context.path_dirs, &names);
            proof {
                assert(texts(out@) == head + (seq![
                    "/Applications/Google Chrome.app/Contents/MacOS/Google Chrome"@,
                    "/Applications/Chromium.app/Contents/MacOS/Chromium"@,
                ] + match context.home_dir {
                    Some(h) => seq![
                        joined(platform, h@, "Applications/Google Chrome.app/Contents/MacOS/Google Chrome"@),
                        joined(platform, h@, "Applications/Chromium.app/Contents/MacOS/Chromium"@),
                    ],
                    None => Seq::empty(),
                } + path_candidates(platform, texts(context.path_dirs@), seq!["google-chrome"@, "chromium"@])));
            }
        },
        ChromiumPlatform::Windows => {
            let mut roots: Vec<String> = Vec::new();
            push_opt(&mut roots, &context.local_app_data);
            push_opt(&mut roots, &context.program_files);
            push_opt(&mut roots, &context.program_files_x86);
            push_joined_roots(&mut out, &roots, "Google\\Chrome\\Application\\chrome.exe");
            push_joined_roots(&mut out, &roots, "Chromium\\Application\\chrome.exe");
            let names = names_of("chrome.exe", "chromium.exe");
            push_path_candidates(&mut out, platform, &context.path_dirs, &names);
            proof {
                let roots_v = opt_list(context.local_app_data) + opt_list(context.program_files)
                    + opt_list(context.program_files_x86);
                assert(texts(roots@) == roots_v);
                assert(texts(out@) == head + (roots_v.map_values(
                    |r: Seq<char>| joined(platform, r, "Google\\Chrome\\Application\\chrome.exe"@),
                ) + roots_v.map_values(
                    |r: Seq<char>| joined(platform, r, "Chromium\\Application\\chrome.exe"@),
                ) + path_candidates(platform, texts(context.path_dirs@), seq!["chrome.exe"@, "chromium.exe"@])));
            }
        },
    }
    out
}

/// Adds a relative path joined, Windows style, to each root.
fn push_joined_roots(out: &mut Vec<String>, roots: &Vec<String>, relative: &str)
    ensures
        texts(final(out)@) == texts(old(out)@) + texts(roots@).map_values(
            |r: Seq<char>| joined(ChromiumPlatform::Windows, r, relative@),
        ),
{
    let ghost start = texts(out@);
    let mut i: usize = 0;
    while i < roots.len()
        invariant
            i <= roots@.len(),
            texts(out@) == start + texts(roots@).take(i as int).map_values(
                |r: Seq<char>| joined(ChromiumPlatform::Windows, r, relative@),
            ),
        decreases roots@.len() - i,
    {
        let j = platform_join(ChromiumPlatform::Windows, &roots[i], relative);
        push_text(out, j);
        proof {
            assert(texts(roots@).take(i + 1).map_values(
                |r: Seq<char>| joined(ChromiumPlatform::Windows, r, relative@),
            ) == texts(roots@).take(i as int).map_values(
                |r: Seq<char>| joined(ChromiumPlatform::Windows, r, relative@),
            ).push(joined(ChromiumPlatform::Windows, roots@[i as int]@, relative@)));
        }
        i += 1;
    }
    proof {
        assert(texts(roots@).take(i as int) == texts(roots@));
    }
}

/// The key a path is compared by.
fn path_key_of(s: &str) -> (r: (bool, bool, Vec<String>))
    ensures
        r.0 == path_key(s@).0,
        r.1 == path_key(s@).1,
        texts(r.2@) == path_key(s@).2,
{
    let v = chars_of(s);
    let rooted = v.len() > 0 && v[0] == '/';
    let cur = v.len() > 0 && v[0] == '.' && (v.len() == 1 || v[1] == '/');
    let segs = crate::text::segments(v.as_slice(), '/');
    let ghost pieces = split(v@, '/');
    let mut out: Vec<String> = Vec::new();
    let mut i: usize = 0;
    while i < segs.len()
        invariant
            i <= segs@.len(),
            segs@.len() == pieces.len(),
            pieces == split(v@, '/'),
            forall|k: int| 0 <= k < segs@.len() ==> (#[trigger] segs@[k]).0 <= segs@[k].1 <= v@.len(),
            forall|k: int|
                0 <= k < segs@.len() ==> v@.subrange(segs@[k].0 as int, segs@[k].1 as int)
                    == #[trigger] pieces[k],
            texts(out@) == path_parts(pieces.take(i as int)),
        decreases segs@.len() - i,
    {
        let (a, b) = segs[i];
        proof {
            assert(pieces.take(i + 1).drop_last() == pieces.take(i as int));
            assert(pieces.take(i + 1).last() == pieces[i as int]);
            assert(v@.subrange(a as int, b as int) == pieces[i as int]);
        }
        let dot = b > a && b - a == 1 && v[a] == '.';
        proof {
            if b == a + 1 {
                assert(pieces[i as int] == seq![v@[a as int]]);
            }
            if pieces[i as int] == seq!['.'] {
                assert(pieces[i as int].len() == 1);
                assert(v@.subrange(a as int, b as int)[0] == v@[a as int]);
            }
        }
        if b > a && !dot {
            let piece = crate::text::string_of(v.as_slice(), a, b);
            let ghost before = texts(out@);
            out.push(piece);
            proof {
                assert(texts(out@) == before.push(piece@));
            }
        }
        i += 1;
    }
    proof {
        assert(pieces.take(i as int) == pieces);
    }
    (rooted, cur, out)
}

/// Whether two path keys are equal.
fn same_key(a: &(bool, bool, Vec<String>), b: &(bool, bool, Vec<String>)) -> (r: bool)
    ensures
        r == (a.0 == b.0 && a.1 == b.1 && texts(a.2@) == texts(b.2@)),
{
    if a.0 != b.0 || a.1 != b.1 || a.2.len() != b.2.len() {
        proof {
            if a.2.len() != b.2.len() {
                assert(texts(a.2@).len() != texts(b.2@).len());
            }
        }
        return false;
    }
    let mut i: usize = 0;
    while i < a.2.len()
        invariant
            i <= a.2@.len(),
            a.2@.len() == b.2@.len(),
            forall|k: int| 0 <= k < i ==> (#[trigger] a.2@[k])@ == b.2@[k]@,
        decreases a.2@.len() - i,
    {
        if !crate::text::str_eq(a.2[i].as_str(), b.2[i].as_str()) {
            proof {
                assert(texts(a.2@)[i as int] != texts(b.2@)[i as int]);
            }
            return false;
        }
        i += 1;
    }
    proof {
        assert(texts(a.2@) =~= texts(b.2@));
    }
    true
}

/// Whether `v` holds a path equal to `s`.
fn contains_path(v: &Vec<String>, s: &String) -> (r: bool)
    ensures
        r == has_path(texts(v@), s@),
{
    let key = path_key_of(s.as_str());
    let mut i: usize = 0;
    while i < v.len()
        invariant
            i <= v@.len(),
            key.0 == path_key(s@).0,
            key.1 == path_key(s@).1,
            texts(key.2@) == path_key(s@).2,
            forall|k: int| 0 <= k < i ==> !same_path(#[trigger] texts(v@)[k], s@),
        decreases v@.len() - i,
    {
        let other = path_key_of(v[i].as_str());
        if same_key(&other, &key) {
            proof {
                assert(texts(v@)[i as int] == v@[i as int]@);
                assert(same_path(texts(v@)[i as int], s@));
            }
            return true;
        }
        proof {
            assert(texts(v@)[i as int] == v@[i as int]@);
        }
        i += 1;
    }
    false
}

/// Adds a candidate unless the same path is already listed.
pub fn push_unique(candidates: &mut Vec<String>, candidate: String)
    ensures
        texts(final(candidates)@) == if has_path(texts(old(candidates)@), candidate@) {
            texts(old(candidates)@)
        } else {
            texts(old(candidates)@).push(candidate@)
        },
{
    if !contains_path(candidates, &candidate) {
        push_text(candidates, candidate);
    }
}

/// The places to look for Chromium on a platform, in order, each once.
pub fn chromium_executable_candidates(
    platform: ChromiumPlatform,
    context: &ChromiumDiscoveryContext,
) -> (r: Vec<String>)
    ensures
        texts(r@) == candidate_list(platform, *context),
{
    let raw = raw_candidate_paths(platform, context);
    let mut out: Vec<String> = Vec::new();
    let mut i: usize = 0;
    proof {
        assert(texts(raw@).take(0) == Seq::<Seq<char>>::empty());
    }
    while i < raw.len()
        invariant
            i <= raw@.len(),
            texts(out@) == dedup_first(texts(raw@).take(i as int)),
        decreases raw@.len() - i,
    {
        proof {
            assert(texts(raw@).take(i + 1).drop_last() == texts(raw@).take(i as int));
            assert(texts(raw@).take(i + 1).last() == raw@[i as int]@);
        }
        push_unique(&mut out, raw[i].clone());
        i += 1;
    }
    proof {
        assert(texts(raw@).take(i as int) == texts(raw@));
    }
    out
}

/// The first place to look for Chromium at which `is_file` finds a file. Each
/// place before it was checked and found no file; with no result, every place was.
pub fn discover_chromium_executable_with<F: FnMut(&String) -> bool>(
    platform: ChromiumPlatform,
    context: &ChromiumDiscoveryContext,
    mut is_file: F,
) -> (r: Option<String>)
    requires
        forall|p: &String| is_file.requires((p,)),
    ensures
        r matches Some(found) ==> is_file.ensures((&found,), true),
        r matches Some(found) ==> exists|k: int|
            #![trigger candidate_list(platform, *context)[k]]
            0 <= k < candidate_list(platform, *context).len() && candidate_list(platform, *context)[k]
                == found@ && forall|j: int|
                0 <= j < k ==> exists|s: String|
                    s@ == #[trigger] candidate_list(platform, *context)[j] && is_file.ensures(
                        (&s,),
                        false,
                    ),
        r is None ==> forall|j: int|
            0 <= j < candidate_list(platform, *context).len() ==> exists|s: String|
                s@ == #[trigger] candidate_list(platform, *context)[j] && is_file.ensures((&s,), false),
{
    let candidates = chromium_executable_candidates(platform, context);
    let ghost c = candidate_list(platform, *context);
    let ghost f0 = is_file;
    let mut hit: Option<usize> = None;
    let mut i: usize = 0;
    while hit.is_none() && i < candidates.len()
        invariant
            is_file == f0,
            i <= candidates@.len(),
            texts(candidates@) == c,
            c == candidate_list(platform, *context),
            forall|p: &String| f0.requires((p,)),
            hit matches Some(k) ==> k + 1 == i && f0.ensures((&candidates@[k as int],), true),
            forall|j: int|
                0 <= j < i ==> hit == Some(j as usize) || exists|s: String|
                    s@ == #[trigger] c[j] && f0.ensures((&s,), false),
        decreases candidates@.len() - i,
    {
        let found = is_file(&candidates[i]);
        proof {
            assert(c[i as int] == candidates@[i as int]@);
        }
        if found {
            hit = Some(i);
        }
        proof {
            assert forall|j: int| 0 <= j < i + 1 implies hit == Some(j as usize) || exists|s: String|
                s@ == #[trigger] c[j] && f0.ensures((&s,), false) by {
                if j == i && !found {
                    assert(candidates@[i as int]@ == c[j]);
                }
            }
        }
        i += 1;
    }
    match hit {
        Some(k) => {
            let out = candidates[k].clone();
            proof {
                assert(out == candidates@[k as int]);
                assert(c[k as int] == out@);
                assert forall|j: int| 0 <= j < k implies exists|s: String|
                    s@ == #[trigger] c[j] && f0.ensures((&s,), false) by {
                    assert(hit != Some(j as usize));
                }
            }
            Some(out)
        },
        None => None,
    }
}

proof fn lemma_dedup_first(s: Seq<Seq<char>>)
    ensures
        distinct_paths(dedup_first(s)),
        forall|x: Seq<char>| dedup_first(s).contains(x) ==> s.contains(x),
        forall|x: Seq<char>| s.contains(x) ==> has_path(dedup_first(s), x),
        s.len() > 0 ==> dedup_first(s).len() > 0 && dedup_first(s)[0] == s[0],
    decreases s.len(),
{
    if s.len() > 0 {
        let init = s.drop_last();
        lemma_dedup_first(init);
        let r = dedup_first(init);
        let d = dedup_first(s);
        let last = s.last();
        assert(s[s.len() - 1] == last);
        assert forall|x: Seq<char>| d.contains(x) implies s.contains(x) by {
            let k = choose|k: int| 0 <= k < d.len() && d[k] == x;
            if k < r.len() {
                assert(r[k] == x);
                assert(r.contains(x));
                assert(init.contains(x));
                let j = choose|j: int| 0 <= j < init.len() && init[j] == x;
                assert(s[j] == x);
            } else {
                assert(d == r.push(last));
                assert(x == last);
            }
        }
        assert forall|x: Seq<char>| s.contains(x) implies has_path(d, x) by {
            let k = choose|k: int| 0 <= k < s.len() && s[k] == x;
            if k < init.len() {
                assert(init[k] == x);
                assert(init.contains(x));
                let j = choose|j: int| 0 <= j < r.len() && same_path(r[j], x);
                assert(d[j] == r[j]);
            } else if has_path(r, last) {
                let j = choose|j: int| 0 <= j < r.len() && same_path(r[j], last);
                assert(d[j] == r[j]);
            } else {
                assert(d[r.len() as int] == last);
            }
        }
        if !has_path(r, last) {
            assert forall|i: int, j: int| 0 <= i < j < d.len() implies !same_path(
                #[trigger] d[i],
                #[trigger] d[j],
            ) by {
                if j == r.len() {
                    assert(d[i] == r[i]);
                    assert(d[j] == last);
                } else {
                    assert(d[i] == r[i] && d[j] == r[j]);
                }
            }
        }
        if init.len() == 0 {
            assert(r.len() == 0);
            assert(d == seq![last]);
        } else {
            assert(init[0] == s[0]);
        }
    }
}

/// The places to look for Chromium are distinct paths, each one the platform
/// names, with every place it names among them as the same path, and begin with the explicit executable when there is one.
pub proof fn lemma_candidates_once_explicit_first(p: ChromiumPlatform, c: ChromiumDiscoveryContext)
    ensures
        distinct_paths(candidate_list(p, c)),
        forall|x: Seq<char>| candidate_list(p, c).contains(x) ==> raw_candidates(p, c).contains(x),
        forall|x: Seq<char>| raw_candidates(p, c).contains(x) ==> has_path(candidate_list(p, c), x),
        c.explicit_executable matches Some(e) ==> candidate_list(p, c).len() > 0 && candidate_list(
            p,
            c,
        )[0] == e@,
{
    lemma_dedup_first(raw_candidates(p, c));
    if c.explicit_executable is Some {
        assert(raw_candidates(p, c)[0] == c.explicit_executable->0@);
    }
}

/// Whether a URL with these parts may be loaded: HTTP(S), no credentials, and a
/// loopback host (`localhost` in any case, `127.0.0.0/8` or `::1`).
pub open spec fn loopback_target(
    scheme: Seq<char>,
    username: Seq<char>,
    has_password: bool,
    host: Option<UrlHost>,
) -> bool {
    &&& (scheme == "http"@ || scheme == "https"@)
    &&& username.len() == 0
    &&& !has_password
    &&& match host {
        Some(UrlHost::Domain(d)) => lower_seq(d@) == "localhost"@,
        Some(UrlHost::Ipv4(octets)) => octets@[0] == 127,
        Some(UrlHost::Ipv6(segments)) => segments@ == seq![0u16, 0, 0, 0, 0, 0, 0, 1],
        None => false,
    }
}

/// Whether an IPv6 address is `::1`.
pub(crate) fn ipv6_loopback(segments: &[u16; 8]) -> (r: bool)
    ensures
        r == (segments@ == seq![0u16, 0, 0, 0, 0, 0, 0, 1]),
{
    let loopback: [u16; 8] = [0, 0, 0, 0, 0, 0, 0, 1];
    let mut k: usize = 0;
    while k < 8
        invariant
            k <= 8,
            loopback@ == seq![0u16, 0, 0, 0, 0, 0, 0, 1],
            forall|m: int| 0 <= m < k ==> segments@[m] == loopback@[m],
        decreases 8 - k,
    {
        if segments[k] != loopback[k] {
            proof {
                assert(segments@[k as int] != loopback@[k as int]);
            }
            return false;
        }
        k += 1;
    }
    proof {
        assert(segments@ == loopback@);
    }
    true
}

/// Whether a URL with these parts may be loaded.
pub fn is_loopback_target(scheme: &str, username: &str, has_password: bool, host: &Option<UrlHost>) -> (r:
    bool)
    ensures
        r == loopback_target(scheme@, username@, has_password, *host),
{
    let sv = chars_of(scheme);
    if !eq_lit(sv.as_slice(), "http") && !eq_lit(sv.as_slice(), "https") {
        return false;
    }
    if !username.is_empty() || has_password {
        return false;
    }
    match host {
        Some(UrlHost::Domain(d)) => {
            let dv = chars_of(d.as_str());
            let l = chars_of("localhost");
            lower_seq_eq(dv.as_slice(), l.as_slice())
        },
        Some(UrlHost::Ipv4(octets)) => octets[0] == 127,
        Some(UrlHost::Ipv6(segments)) => ipv6_loopback(segments),
        None => false,
    }
}

/// Whether Chromium may load a URL: HTTP(S) without credentials to a loopback host.
pub fn validate_loopback_url(url: &UrlParts) -> (r: bool)
    ensures
        r == loopback_target(url.scheme@, url.username@, url.has_password, url.host),
{
    is_loopback_target(url.scheme.as_str(), url.username.as_str(), url.has_password, &url.host)
}


proof fn lemma_concat_contains(a: Seq<Seq<char>>, b: Seq<Seq<char>>, x: Seq<char>)
    ensures
        a.contains(x) ==> (a + b).contains(x),
        b.contains(x) ==> (a + b).contains(x),
{
    if a.contains(x) {
        let i = choose|i: int| 0 <= i < a.len() && a[i] == x;
        assert((a + b)[i] == x);
    }
    if b.contains(x) {
        let i = choose|i: int| 0 <= i < b.len() && b[i] == x;
        assert((a + b)[a.len() + i] == x);
    }
}

proof fn lemma_mapped_contains(roots: Seq<Seq<char>>, p: ChromiumPlatform, rel: Seq<char>, r: Seq<char>)
    requires
        roots.contains(r),
    ensures
        roots.map_values(|x: Seq<char>| joined(p, x, rel)).contains(joined(p, r, rel)),
{
    let i = choose|i: int| 0 <= i < roots.len() && roots[i] == r;
    assert(roots.map_values(|x: Seq<char>| joined(p, x, rel))[i] == joined(p, r, rel));
}

proof fn lemma_path_candidates_contain(p: ChromiumPlatform, dirs: Seq<Seq<char>>, names: Seq<Seq<char>>, i: int, j: int)
    requires
        0 <= i < dirs.len(),
        0 <= j < names.len(),
    ensures
        path_candidates(p, dirs, names).contains(joined(p, dirs[i], names[j])),
    decreases names.len(),
{
    let init = names.drop_last();
    let tail = dirs.map_values(|d: Seq<char>| joined(p, d, names.last()));
    if j < names.len() - 1 {
        lemma_path_candidates_contain(p, dirs, init, i, j);
        assert(init[j] == names[j]);
        lemma_concat_contains(path_candidates(p, dirs, init), tail, joined(p, dirs[i], names[j]));
    } else {
        assert(tail[i] == joined(p, dirs[i], names[j]));
        lemma_concat_contains(path_candidates(p, dirs, init), tail, joined(p, dirs[i], names[j]));
    }
}

/// Every place a platform names for Chromium is among the places looked at (as
/// the same path): on Windows, Google Chrome and Chromium under each of the local
/// application data and program files directories that is set, and `chrome.exe`
/// and `chromium.exe` in each `PATH` directory; on Linux, the four executable
/// names in each `PATH` directory; on macOS, the system and the user's application
/// bundles of both, and `google-chrome` and `chromium` in each `PATH` directory.
pub proof fn lemma_platform_places_are_listed(c: ChromiumDiscoveryContext)
    ensures
        ({
            let w = candidate_list(ChromiumPlatform::Windows, c);
            let roots_listed = |r: Seq<char>|
                has_path(w, joined(ChromiumPlatform::Windows, r, "Google\\Chrome\\Application\\chrome.exe"@))
                    && has_path(w, joined(ChromiumPlatform::Windows, r, "Chromium\\Application\\chrome.exe"@));
            &&& (c.local_app_data matches Some(r) ==> roots_listed(r@))
            &&& (c.program_files matches Some(r) ==> roots_listed(r@))
            &&& (c.program_files_x86 matches Some(r) ==> roots_listed(r@))
        }),
        forall|i: int|
            0 <= i < c.path_dirs@.len() ==> has_path(
                candidate_list(ChromiumPlatform::Windows, c),
                joined(ChromiumPlatform::Windows, (#[trigger] c.path_dirs@[i])@, "chrome.exe"@),
            ) && has_path(
                candidate_list(ChromiumPlatform::Windows, c),
                joined(ChromiumPlatform::Windows, c.path_dirs@[i]@, "chromium.exe"@),
            ) && has_path(
                candidate_list(ChromiumPlatform::Linux, c),
                joined(ChromiumPlatform::Linux, c.path_dirs@[i]@, "google-chrome"@),
            ) && has_path(
                candidate_list(ChromiumPlatform::Linux, c),
                joined(ChromiumPlatform::Linux, c.path_dirs@[i]@, "google-chrome-stable"@),
            ) && has_path(
                candidate_list(ChromiumPlatform::Linux, c),
                joined(ChromiumPlatform::Linux, c.path_dirs@[i]@, "chromium"@),
            ) && has_path(
                candidate_list(ChromiumPlatform::Linux, c),
                joined(ChromiumPlatform::Linux, c.path_dirs@[i]@, "chromium-browser"@),
            ) && has_path(
                candidate_list(ChromiumPlatform::Macos, c),
                joined(ChromiumPlatform::Macos, c.path_dirs@[i]@, "google-chrome"@),
            ) && has_path(
                candidate_list(ChromiumPlatform::Macos, c),
                joined(ChromiumPlatform::Macos, c.path_dirs@[i]@, "chromium"@),
            ),
        has_path(
            candidate_list(ChromiumPlatform::Macos, c),
            "/Applications/Google Chrome.app/Contents/MacOS/Google Chrome"@,
        ),
        has_path(candidate_list(ChromiumPlatform::Macos, c), "/Applications/Chromium.app/Contents/MacOS/Chromium"@),
        c.home_dir matches Some(h) ==> has_path(
            candidate_list(ChromiumPlatform::Macos, c),
            joined(ChromiumPlatform::Macos, h@, "Applications/Google Chrome.app/Contents/MacOS/Google Chrome"@),
        ) && has_path(
            candidate_list(ChromiumPlatform::Macos, c),
            joined(ChromiumPlatform::Macos, h@, "Applications/Chromium.app/Contents/MacOS/Chromium"@),
        ),
{
    let win = ChromiumPlatform::Windows;
    let lin = ChromiumPlatform::Linux;
    let mac = ChromiumPlatform::Macos;
    lemma_candidates_once_explicit_first(win, c);
    lemma_candidates_once_explicit_first(lin, c);
    lemma_candidates_once_explicit_first(mac, c);
    let head = opt_list(c.explicit_executable);
    let dirs = texts(c.path_dirs@);
    // Windows
    let roots = opt_list(c.local_app_data) + opt_list(c.program_files) + opt_list(c.program_files_x86);
    let g = "Google\\Chrome\\Application\\chrome.exe"@;
    let ch = "Chromium\\Application\\chrome.exe"@;
    let gm = roots.map_values(|r: Seq<char>| joined(win, r, g));
    let cm = roots.map_values(|r: Seq<char>| joined(win, r, ch));
    let wnames = seq!["chrome.exe"@, "chromium.exe"@];
    let wp = path_candidates(win, dirs, wnames);
    assert(raw_candidates(win, c) == head + (gm + cm + wp));
    assert forall|r: Seq<char>| roots.contains(r) implies has_path(candidate_list(win, c), joined(win, r, g))
        && has_path(candidate_list(win, c), joined(win, r, ch)) by {
        lemma_mapped_contains(roots, win, g, r);
        lemma_mapped_contains(roots, win, ch, r);
        lemma_concat_contains(gm, cm, joined(win, r, g));
        lemma_concat_contains(gm, cm, joined(win, r, ch));
        lemma_concat_contains(gm + cm, wp, joined(win, r, g));
        lemma_concat_contains(gm + cm, wp, joined(win, r, ch));
        lemma_concat_contains(head, gm + cm + wp, joined(win, r, g));
        lemma_concat_contains(head, gm + cm + wp, joined(win, r, ch));
    }
    let l1 = opt_list(c.local_app_data);
    let l2 = opt_list(c.program_files);
    let l3 = opt_list(c.program_files_x86);
    if c.local_app_data is Some {
        lemma_concat_contains(l1, l2, l1[0]);
        lemma_concat_contains(l1 + l2, l3, l1[0]);
    }
    if c.program_files is Some {
        lemma_concat_contains(l1, l2, l2[0]);
        lemma_concat_contains(l1 + l2, l3, l2[0]);
    }
    if c.program_files_x86 is Some {
        lemma_concat_contains(l1 + l2, l3, l3[0]);
    }
    // Linux
    let lnames = seq!["google-chrome"@, "google-chrome-stable"@, "chromium"@, "chromium-browser"@];
    let lp = path_candidates(lin, dirs, lnames);
    assert(raw_candidates(lin, c) == head + lp);
    // macOS
    let fixed = seq![
        "/Applications/Google Chrome.app/Contents/MacOS/Google Chrome"@,
        "/Applications/Chromium.app/Contents/MacOS/Chromium"@,
    ];
    let home = match c.home_dir {
        Some(h) => seq![
            joined(mac, h@, "Applications/Google Chrome.app/Contents/MacOS/Google Chrome"@),
            joined(mac, h@, "Applications/Chromium.app/Contents/MacOS/Chromium"@),
        ],
        None => Seq::empty(),
    };
    let mnames = seq!["google-chrome"@, "chromium"@];
    let mp = path_candidates(mac, dirs, mnames);
    assert(raw_candidates(mac, c) == head + (fixed + home + mp));
    assert(fixed[0] == "/Applications/Google Chrome.app/Contents/MacOS/Google Chrome"@);
    assert(fixed[1] == "/Applications/Chromium.app/Contents/MacOS/Chromium"@);
    lemma_concat_contains(fixed, home, fixed[0]);
    lemma_concat_contains(fixed, home, fixed[1]);
    lemma_concat_contains(fixed + home, mp, fixed[0]);
    lemma_concat_contains(fixed + home, mp, fixed[1]);
    lemma_concat_contains(head, fixed + home + mp, fixed[0]);
    lemma_concat_contains(head, fixed + home + mp, fixed[1]);
    if c.home_dir is Some {
        assert(home.contains(home[0]));
        assert(home.contains(home[1]));
        lemma_concat_contains(fixed, home, home[0]);
        lemma_concat_contains(fixed, home, home[1]);
        lemma_concat_contains(fixed + home, mp, home[0]);
        lemma_concat_contains(fixed + home, mp, home[1]);
        lemma_concat_contains(head, fixed + home + mp, home[0]);
        lemma_concat_contains(head, fixed + home + mp, home[1]);
    }
    assert forall|i: int| 0 <= i < c.path_dirs@.len() implies has_path(
        candidate_list(win, c),
        joined(win, (#[trigger] c.path_dirs@[i])@, "chrome.exe"@),
    ) && has_path(candidate_list(win, c), joined(win, c.path_dirs@[i]@, "chromium.exe"@)) && has_path(
        candidate_list(lin, c),
        joined(lin, c.path_dirs@[i]@, "google-chrome"@),
    ) && has_path(candidate_list(lin, c), joined(lin, c.path_dirs@[i]@, "google-chrome-stable"@))
        && has_path(candidate_list(lin, c), joined(lin, c.path_dirs@[i]@, "chromium"@)) && has_path(
        candidate_list(lin, c),
        joined(lin, c.path_dirs@[i]@, "chromium-browser"@),
    ) && has_path(candidate_list(mac, c), joined(mac, c.path_dirs@[i]@, "google-chrome"@)) && has_path(
        candidate_list(mac, c),
        joined(mac, c.path_dirs@[i]@, "chromium"@),
    ) by {
        assert(dirs[i] == c.path_dirs@[i]@);
        lemma_path_candidates_contain(win, dirs, wnames, i, 0);
        lemma_path_candidates_contain(win, dirs, wnames, i, 1);
        lemma_path_candidates_contain(lin, dirs, lnames, i, 0);
        lemma_path_candidates_contain(lin, dirs, lnames, i, 1);
        lemma_path_candidates_contain(lin, dirs, lnames, i, 2);
        lemma_path_candidates_contain(lin, dirs, lnames, i, 3);
        lemma_path_candidates_contain(mac, dirs, mnames, i, 0);
        lemma_path_candidates_contain(mac, dirs, mnames, i, 1);
        let x0 = joined(win, dirs[i], wnames[0]);
        let x1 = joined(win, dirs[i], wnames[1]);
        lemma_concat_contains(gm + cm, wp, x0);
        lemma_concat_contains(gm + cm, wp, x1);
        lemma_concat_contains(head, gm + cm + wp, x0);
        lemma_concat_contains(head, gm + cm + wp, x1);
        let y0 = joined(lin, dirs[i], lnames[0]);
        let y1 = joined(lin, dirs[i], lnames[1]);
        let y2 = joined(lin, dirs[i], lnames[2]);
        let y3 = joined(lin, dirs[i], lnames[3]);
        lemma_concat_contains(head, lp, y0);
        lemma_concat_contains(head, lp, y1);
        lemma_concat_contains(head, lp, y2);
        lemma_concat_contains(head, lp, y3);
        let z0 = joined(mac, dirs[i], mnames[0]);
        let z1 = joined(mac, dirs[i], mnames[1]);
        lemma_concat_contains(fixed + home, mp, z0);
        lemma_concat_contains(fixed + home, mp, z1);
        lemma_concat_contains(head, fixed + home + mp, z0);
        lemma_concat_contains(head, fixed + home + mp, z1);
    }
}

} // verus!
