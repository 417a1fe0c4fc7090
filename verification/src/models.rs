//! Local model registry: which files make a model, where they come from and
//! where they go. Weights are fetched at run time and cached under the
//! configured models directory; they are never redistributed.

use crate::error::{CoreError, CoreResult, Failure};
use crate::path;
use crate::path::Style;
use crate::qwen3_tts::HF_REPO;
use crate::text;
use vstd::prelude::*;

verus! {

/// One file of a local model. `repo: None` means the model's default repo.
#[derive(Debug, Clone, Copy)]
pub struct ModelFile {
    pub name: &'static str,
    pub repo: Option<&'static str>,
}

/// A downloadable local model.
#[derive(Debug)]
pub struct ModelSpec {
    /// Directory name under the models directory (also the command-line name).
    pub name: &'static str,
    /// Default Hugging Face repo id.
    pub repo: &'static str,
    /// Files to download into the model directory.
    pub files: Vec<ModelFile>,
    pub description: &'static str,
}

/// A file of the model's default repo.
pub fn file(name: &'static str) -> (r: ModelFile)
    ensures
        r.name@ == name@,
        r.repo is None,
{
    ModelFile { name, repo: None }
}

/// What a [`ModelFile`] names.
pub open spec fn file_view(f: ModelFile) -> (Seq<char>, Option<Seq<char>>) {
    (f.name@, f.repo.deep_view())
}

/// Whether a model is NVIDIA Canary 1B v2.
pub open spec fn is_canary(m: ModelSpec) -> bool {
    &&& m.name@ == "canary-1b-v2"@
    &&& m.repo@ == "istupakov/canary-1b-v2-onnx"@
    &&& m.files@.len() == 4
    &&& file_view(m.files@[0]) == ("encoder-model.int8.onnx"@, None::<Seq<char>>)
    &&& file_view(m.files@[1]) == ("decoder-model.int8.onnx"@, None::<Seq<char>>)
    &&& file_view(m.files@[2]) == ("nemo128.onnx"@, Some("istupakov/parakeet-tdt-0.6b-v3-onnx"@))
    &&& file_view(m.files@[3]) == ("vocab.txt"@, None::<Seq<char>>)
    &&& m.description@
        == "NVIDIA Canary 1B v2 (int8 ONNX) \u{2014} multilingual STT, 25 languages"@
}

/// NVIDIA Canary 1B v2, int8 ONNX export (25 European languages).
/// `nemo128.onnx` (the shared log-mel preprocessor) is not present in the
/// canary repo: it ships in the sibling parakeet export.
pub fn canary_1b_v2() -> (r: ModelSpec)
    ensures
        is_canary(r),
{
    let mut files: Vec<ModelFile> = Vec::new();
    files.push(file("encoder-model.int8.onnx"));
    files.push(file("decoder-model.int8.onnx"));
    files.push(
        ModelFile {
            name: "nemo128.onnx",
            repo: Some("istupakov/parakeet-tdt-0.6b-v3-onnx"),
        },
    );
    files.push(file("vocab.txt"));
    ModelSpec {
        name: "canary-1b-v2",
        repo: "istupakov/canary-1b-v2-onnx",
        files,
        description: "NVIDIA Canary 1B v2 (int8 ONNX) \u{2014} multilingual STT, 25 languages",
    }
}

/// Whether a model is Qwen3-TTS with named voices.
pub open spec fn is_qwen3(m: ModelSpec) -> bool {
    &&& m.name@ == "qwen3-tts"@
    &&& m.repo@ == HF_REPO@
    &&& m.files@.len() == 4
    &&& file_view(m.files@[0]) == ("config.json"@, None::<Seq<char>>)
    &&& file_view(m.files@[1]) == ("tokenizer.json"@, Some("Qwen/Qwen2.5-0.5B"@))
    &&& file_view(m.files@[2]) == ("model.safetensors"@, None::<Seq<char>>)
    &&& file_view(m.files@[3]) == ("speech_tokenizer/model.safetensors"@, None::<Seq<char>>)
    &&& m.description@
        == "Qwen3-TTS 12Hz 1.7B CustomVoice \u{2014} named voices, 10 languages"@
}

/// Qwen3-TTS-12Hz-1.7B-CustomVoice: what any-tts needs in a model directory.
/// `tokenizer.json` (the text tokenizer) comes from the base model's repo, which
/// is where any-tts falls back to for it.
pub fn qwen3_tts() -> (r: ModelSpec)
    ensures
        is_qwen3(r),
{
    let mut files: Vec<ModelFile> = Vec::new();
    files.push(file("config.json"));
    files.push(ModelFile { name: "tokenizer.json", repo: Some("Qwen/Qwen2.5-0.5B") });
    files.push(file("model.safetensors"));
    files.push(file("speech_tokenizer/model.safetensors"));
    ModelSpec {
        name: "qwen3-tts",
        repo: HF_REPO,
        files,
        description: "Qwen3-TTS 12Hz 1.7B CustomVoice \u{2014} named voices, 10 languages",
    }
}

/// Every model of the registry.
pub fn all_models() -> (r: Vec<ModelSpec>)
    ensures
        r@.len() == 2,
        is_canary(r@[0]),
        is_qwen3(r@[1]),
{
    let mut r: Vec<ModelSpec> = Vec::new();
    r.push(canary_1b_v2());
    r.push(qwen3_tts());
    r
}

/// The model of a name.
pub fn find(name: &str) -> (r: Option<ModelSpec>)
    ensures
        r is Some <==> name@ == "canary-1b-v2"@ || name@ == "qwen3-tts"@,
        r matches Some(m) ==> m.name@ == name@ && (is_canary(m) || is_qwen3(m)),
{
    if text::same(name, "canary-1b-v2") {
        Some(canary_1b_v2())
    } else if text::same(name, "qwen3-tts") {
        Some(qwen3_tts())
    } else {
        None
    }
}

/// Whether a file of this size, where there is one, is complete: it exists and
/// is not empty.
pub open spec fn is_complete(size: Option<u64>) -> bool {
    match size {
        Some(n) => n > 0,
        None => false,
    }
}

/// Whether the files of these sizes are all complete.
pub open spec fn are_complete(sizes: Seq<Option<u64>>) -> bool {
    forall|i: int| 0 <= i < sizes.len() ==> is_complete(#[trigger] sizes[i])
}

/// The address of a file of the model.
pub open spec fn file_url(base_url: Seq<char>, model: ModelSpec, f: ModelFile) -> Seq<char> {
    base_url + "/"@ + text::or(f.repo.deep_view(), model.repo@) + "/resolve/main/"@ + f.name@
}

/// A file to fetch: it is written to `partial` and then renamed to `target`, so
/// that a partial download is never taken for an installed file.
#[derive(Debug)]
pub struct Download {
    pub name: String,
    pub url: String,
    pub target: String,
    pub partial: String,
}

/// What a [`Download`] says.
pub struct DownloadView {
    pub name: Seq<char>,
    pub url: Seq<char>,
    pub target: Seq<char>,
    pub partial: Seq<char>,
}

impl DeepView for Download {
    type V = DownloadView;

    open spec fn deep_view(&self) -> DownloadView {
        DownloadView {
            name: self.name@,
            url: self.url@,
            target: self.target@,
            partial: self.partial@,
        }
    }
}

impl ModelSpec {
    /// The directory of the model.
    pub open spec fn directory(self, models_dir: Seq<char>, style: Style) -> Seq<char> {
        path::join(models_dir, self.name@, style)
    }

    /// The download of file `i`.
    pub open spec fn download(
        self,
        models_dir: Seq<char>,
        base_url: Seq<char>,
        style: Style,
        i: int,
    ) -> DownloadView {
        let f = self.files@[i];
        DownloadView {
            name: f.name@,
            url: file_url(base_url, self, f),
            target: path::join(self.directory(models_dir, style), f.name@, style),
            partial: path::join(self.directory(models_dir, style), f.name@ + ".part"@, style),
        }
    }

    /// The downloads of those of the first `n` files that are not complete.
    pub open spec fn missing(
        self,
        models_dir: Seq<char>,
        base_url: Seq<char>,
        sizes: Seq<Option<u64>>,
        style: Style,
        n: int,
    ) -> Seq<DownloadView>
        decreases n,
    {
        if n <= 0 {
            Seq::empty()
        } else if is_complete(sizes[n - 1]) {
            self.missing(models_dir, base_url, sizes, style, n - 1)
        } else {
            self.missing(models_dir, base_url, sizes, style, n - 1).push(
                self.download(models_dir, base_url, style, n - 1),
            )
        }
    }

    /// The directory of the model.
    pub fn dir(&self, models_dir: &str, style: Style) -> (r: String)
        ensures
            r@ == self.directory(models_dir@, style),
    {
        path::joined(models_dir, self.name, style)
    }

    /// A model is installed when every expected file exists and is non-empty.
    /// `sizes` holds the size of each file that exists.
    pub fn is_installed(&self, sizes: &Vec<Option<u64>>) -> (r: bool)
        requires
            sizes@.len() == self.files@.len(),
        ensures
            r == are_complete(sizes@),
    {
        let mut i: usize = 0;
        while i < sizes.len()
            invariant
                i <= sizes@.len(),
                forall|j: int| 0 <= j < i ==> is_complete(#[trigger] sizes@[j]),
            decreases sizes@.len() - i,
        {
            let complete = match sizes[i] {
                Some(n) => n > 0,
                None => false,
            };
            if !complete {
                assert(!is_complete(sizes@[i as int]));
                return false;
            }
            i = i + 1;
        }
        true
    }

    pub fn url_for(&self, base_url: &str, file: &ModelFile) -> (r: String)
        ensures
            r@ == file_url(base_url@, *self, *file),
    {
        let mut url = base_url.to_owned();
        url.append("/");
        match file.repo {
            Some(repo) => url.append(repo),
            None => url.append(self.repo),
        }
        url.append("/resolve/main/");
        url.append(file.name);
        url
    }

    /// What is still to be fetched into the models directory. Existing complete
    /// files are skipped, so retries resume cheaply.
    pub fn fetch(
        &self,
        models_dir: &str,
        base_url: &str,
        sizes: &Vec<Option<u64>>,
        style: Style,
    ) -> (r: Vec<Download>)
        requires
            sizes@.len() == self.files@.len(),
        ensures
            r.deep_view() == self.missing(
                models_dir@,
                base_url@,
                sizes@,
                style,
                self.files@.len() as int,
            ),
    {
        let dir = self.dir(models_dir, style);
        let mut r: Vec<Download> = Vec::new();
        let mut i: usize = 0;
        assert(r.deep_view() =~= Seq::empty());
        while i < self.files.len()
            invariant
                i <= self.files@.len() == sizes@.len(),
                dir@ == self.directory(models_dir@, style),
                r.deep_view() == self.missing(models_dir@, base_url@, sizes@, style, i as int),
            decreases self.files@.len() - i,
        {
            let complete = match sizes[i] {
                Some(n) => n > 0,
                None => false,
            };
            if !complete {
                let f = &self.files[i];
                let mut part = f.name.to_owned();
                part.append(".part");
                let download = Download {
                    name: f.name.to_owned(),
                    url: self.url_for(base_url, f),
                    target: path::joined(&dir, f.name, style),
                    partial: path::joined(&dir, &part, style),
                };
                let ghost before = r.deep_view();
                assert(download.deep_view() == self.download(
                    models_dir@,
                    base_url@,
                    style,
                    i as int,
                ));
                r.push(download);
                assert(r.deep_view() =~= before.push(download.deep_view()));
            }
            i = i + 1;
        }
        r
    }
}

/// The error of a download that is answered with a status other than success.
pub fn download_error(url: &str, status: u16) -> (r: CoreError)
    ensures
        r.deep_view() == (Failure::Provider {
            provider: "huggingface"@,
            message: "GET "@ + url@ + ": HTTP "@ + text::decimal(status as nat),
        }),
{
    let mut message = "GET ".to_owned();
    message.append(url);
    message.append(": HTTP ");
    message.append(&text::decimal_text(status as u128));
    CoreError::Provider { provider: "huggingface".to_owned(), message }
}

/// The bytes that a download asks for where a part of the file is already
/// there: those that are missing.
pub open spec fn wanted_range(part_len: u64) -> Option<Seq<char>> {
    if part_len > 0 {
        Some("bytes="@ + text::decimal(part_len as nat) + "-"@)
    } else {
        None
    }
}

/// The value of the `Range` header, given how much of the file is there.
pub fn range_header(part_len: u64) -> (r: Option<String>)
    ensures
        r.deep_view() == wanted_range(part_len),
{
    if part_len == 0 {
        return None;
    }
    let mut value = "bytes=".to_owned();
    value.append(&text::decimal_text(part_len as u128));
    value.append("-");
    Some(value)
}

/// Where the bytes of an answer are written: after the part that is there when
/// the server sends the rest of the file, else at the start.
pub fn resume_at(url: &str, part_len: u64, status: u16) -> (r: CoreResult<u64>)
    ensures
        match r {
            Ok(at) => 200 <= status < 300 && at == if status == 206 {
                part_len
            } else {
                0
            },
            Err(e) => !(200 <= status < 300) && e.deep_view() == (Failure::Provider {
                provider: "huggingface"@,
                message: "GET "@ + url@ + ": HTTP "@ + text::decimal(status as nat),
            }),
        },
{
    if status < 200 || status >= 300 {
        return Err(download_error(url, status));
    }
    if status == 206 {
        Ok(part_len)
    } else {
        Ok(0)
    }
}

/// Whether a download begins again without asking for a range: the server has
/// refused the range, so what is there cannot be completed.
pub fn starts_over(part_len: u64, status: u16) -> (r: bool)
    ensures
        r == (part_len > 0 && status == 416),
{
    part_len > 0 && status == 416
}

/// How many bytes come between two reports of a download's progress.
pub const PROGRESS_STEP: u64 = 52_428_800;

/// Whether the progress of a download is reported: at its end, or after enough
/// bytes since the last report.
pub open spec fn is_reported(last: u64, bytes: u64, total: Option<u64>) -> bool {
    total == Some(bytes) || bytes - last >= PROGRESS_STEP
}

/// The report of a download's progress.
pub open spec fn progress_line(file: Seq<char>, bytes: u64, total: Option<u64>) -> Seq<char> {
    let start = "  "@ + file + ": "@ + text::decimal(bytes as nat);
    match total {
        Some(t) if t > 0 => start + "/"@ + text::decimal(t as nat) + " bytes"@,
        _ => start + " bytes"@,
    }
}

/// The report of a download's progress where one is due, given how many bytes
/// there were at the last report.
pub fn progress(file: &str, last: u64, bytes: u64, total: Option<u64>) -> (r: Option<String>)
    ensures
        r.deep_view() == if is_reported(last, bytes, total) {
            Some(progress_line(file@, bytes, total))
        } else {
            None
        },
{
    let done = match total {
        Some(t) => t == bytes,
        None => false,
    };
    if !done && bytes.saturating_sub(last) < PROGRESS_STEP {
        return None;
    }
    let mut line = "  ".to_owned();
    line.append(file);
    line.append(": ");
    line.append(&text::decimal_text(bytes as u128));
    if let Some(t) = total {
        if t > 0 {
            line.append("/");
            line.append(&text::decimal_text(t as u128));
        }
    }
    line.append(" bytes");
    Some(line)
}

proof fn lemma_nothing_missing(
    model: ModelSpec,
    models_dir: Seq<char>,
    base_url: Seq<char>,
    sizes: Seq<Option<u64>>,
    style: Style,
    n: int,
)
    requires
        0 <= n <= sizes.len(),
    ensures
        model.missing(models_dir, base_url, sizes, style, n).len() == 0 <==> forall|i: int|
            0 <= i < n ==> is_complete(#[trigger] sizes[i]),
    decreases n,
{
    if n > 0 {
        lemma_nothing_missing(model, models_dir, base_url, sizes, style, n - 1);
    }
}

/// Nothing is fetched exactly when the model is installed.
pub proof fn law_installed_model_needs_no_download(
    model: ModelSpec,
    models_dir: Seq<char>,
    base_url: Seq<char>,
    sizes: Seq<Option<u64>>,
    style: Style,
)
    requires
        sizes.len() == model.files@.len(),
    ensures
        model.missing(models_dir, base_url, sizes, style, sizes.len() as int).len() == 0
            <==> are_complete(sizes),
{
    lemma_nothing_missing(model, models_dir, base_url, sizes, style, sizes.len() as int);
}

/// A partial download never stands where its file is looked for. In paths of the
/// Windows style the name of the file is a relative path, as that of every file
/// of the registry is.
pub proof fn law_partial_download_is_not_the_file(
    model: ModelSpec,
    models_dir: Seq<char>,
    base_url: Seq<char>,
    style: Style,
    i: int,
)
    requires
        style == Style::Windows ==> path::is_relative(model.files@[i].name@, style),
    ensures
        model.download(models_dir, base_url, style, i).partial != model.download(
            models_dir,
            base_url,
            style,
            i,
        ).target,
{
    let name = model.files@[i].name@;
    let dir = model.directory(models_dir, style);
    reveal_strlit(".part");
    if style == Style::Windows {
        path::lemma_longer_name(dir, name, ".part"@, style);
    } else {
        let part = name + ".part"@;
        if name.len() == 0 {
            assert(part[0] == '.');
        } else {
            assert(part[0] == name[0]);
        }
        assert(path::join(dir, part, style).len() == path::join(dir, name, style).len() + 5);
    }
}

// ---------------------------------------------------------------------------
// Laws of downloads
// ---------------------------------------------------------------------------

/// A file counts as complete exactly where it exists and holds at least one byte.
pub proof fn law_complete_files(sizes: Seq<Option<u64>>)
    ensures
        are_complete(sizes) <==> forall|i: int|
            0 <= i < sizes.len() ==> (#[trigger] sizes[i]) is Some && sizes[i]->Some_0 >= 1,
{
    if are_complete(sizes) {
        assert forall|i: int| 0 <= i < sizes.len() implies (#[trigger] sizes[i]) is Some
            && sizes[i]->Some_0 >= 1 by {
            assert(is_complete(sizes[i]));
        }
    }
}

/// A download fetches its own file, from the repository of the file or else of the
/// model, into the directory of the model, by way of a partial file beside it.
pub proof fn law_download_of_a_file(
    model: ModelSpec,
    models_dir: Seq<char>,
    base_url: Seq<char>,
    style: Style,
    i: int,
)
    requires
        0 <= i < model.files@.len(),
    ensures
        ({
            let f = model.files@[i];
            let d = model.download(models_dir, base_url, style, i);
            let dir = path::join(models_dir, model.name@, style);
            &&& d.name == f.name@
            &&& d.url == base_url + seq!['/'] + (match f.repo {
                Some(r) => r@,
                None => model.repo@,
            }) + "/resolve/main/"@ + f.name@
            &&& d.target == path::join(dir, f.name@, style)
            &&& d.partial == path::join(dir, f.name@ + seq!['.', 'p', 'a', 'r', 't'], style)
        }),
{
    reveal_strlit("/");
    reveal_strlit(".part");
    assert("/"@ =~= seq!['/']);
    assert(".part"@ =~= seq!['.', 'p', 'a', 'r', 't']);
}

/// Exactly the files that are not complete are fetched: each once, in the order of
/// the model.
pub proof fn law_missing_files_are_fetched(
    model: ModelSpec,
    models_dir: Seq<char>,
    base_url: Seq<char>,
    sizes: Seq<Option<u64>>,
    style: Style,
    n: int,
)
    requires
        0 <= n <= sizes.len(),
        sizes.len() == model.files@.len(),
    ensures
        exists|places: Seq<int>| #[trigger]
            are_missing(places, sizes, n) && model.missing(models_dir, base_url, sizes, style, n)
                == places.map_values(|i: int| model.download(models_dir, base_url, style, i)),
    decreases n,
{
    let f = |i: int| model.download(models_dir, base_url, style, i);
    if n == 0 {
        let places = Seq::<int>::empty();
        assert(are_missing(places, sizes, n));
        assert(model.missing(models_dir, base_url, sizes, style, n) =~= places.map_values(f));
    } else {
        law_missing_files_are_fetched(model, models_dir, base_url, sizes, style, n - 1);
        let before = choose|places: Seq<int>| #[trigger]
            are_missing(places, sizes, n - 1) && model.missing(
                models_dir,
                base_url,
                sizes,
                style,
                n - 1,
            ) == places.map_values(|i: int| model.download(models_dir, base_url, style, i));
        let places = if sizes[n - 1] is Some && sizes[n - 1]->Some_0 >= 1 {
            before
        } else {
            before.push(n - 1)
        };
        assert forall|i: int| 0 <= i < n && !(sizes[i] is Some && (#[trigger] sizes[i])->Some_0
            >= 1) implies places.contains(i) by {
            if i < n - 1 {
                let k = before.index_of(i);
                assert(places[k] == i);
            } else {
                assert(places[places.len() - 1] == i);
            }
        }
        assert(are_missing(places, sizes, n));
        assert(model.missing(models_dir, base_url, sizes, style, n) =~= places.map_values(f));
    }
}

/// Whether these are the places, in order, of those of the first `n` files that do not
/// exist or are empty.
pub open spec fn are_missing(places: Seq<int>, sizes: Seq<Option<u64>>, n: int) -> bool {
    &&& forall|k: int|
        0 <= k < places.len() ==> 0 <= (#[trigger] places[k]) < n && !(sizes[places[k]] is Some
            && sizes[places[k]]->Some_0 >= 1)
    &&& forall|j: int, k: int|
        0 <= j < k < places.len() ==> (#[trigger] places[j]) < (#[trigger] places[k])
    &&& forall|i: int|
        0 <= i < n && !(sizes[i] is Some && (#[trigger] sizes[i])->Some_0 >= 1) ==> places.contains(
            i,
        )
}

/// A download that was broken off goes on from the first byte that is missing.
pub proof fn law_range_of_the_rest(part_len: u64)
    ensures
        part_len == 0 ==> wanted_range(part_len) is None,
        part_len > 0 ==> wanted_range(part_len) == Some(
            seq!['b', 'y', 't', 'e', 's', '='] + text::decimal(part_len as nat) + seq!['-'],
        ),
{
    reveal_strlit("bytes=");
    reveal_strlit("-");
    assert("bytes="@ =~= seq!['b', 'y', 't', 'e', 's', '=']);
    assert("-"@ =~= seq!['-']);
}

/// Progress is reported at the end of a file, and after at least 50 MiB since the last
/// report.
pub proof fn law_progress_reports(last: u64, bytes: u64, total: Option<u64>)
    ensures
        is_reported(last, bytes, total) <==> (total matches Some(t) && t == bytes) || bytes - last
            >= 50 * 1024 * 1024,
{
}

/// The registry knows which files make each model, and where each comes from.
pub proof fn law_registry(m: ModelSpec)
    ensures
        is_canary(m) ==> m.name@ == "canary-1b-v2"@ && m.repo@ == "istupakov/canary-1b-v2-onnx"@
            && m.files@.len() == 4 && m.files@[0].name@ == "encoder-model.int8.onnx"@
            && m.files@[1].name@ == "decoder-model.int8.onnx"@ && m.files@[2].name@
            == "nemo128.onnx"@ && m.files@[3].name@ == "vocab.txt"@ && m.files@[0].repo is None
            && m.files@[1].repo is None && (m.files@[2].repo matches Some(r) && r@
            == "istupakov/parakeet-tdt-0.6b-v3-onnx"@) && m.files@[3].repo is None,
        is_qwen3(m) ==> m.name@ == "qwen3-tts"@ && m.repo@
            == "Qwen/Qwen3-TTS-12Hz-1.7B-CustomVoice"@ && m.files@.len() == 4 && m.files@[0].name@
            == "config.json"@ && m.files@[1].name@ == "tokenizer.json"@ && m.files@[2].name@
            == "model.safetensors"@ && m.files@[3].name@ == "speech_tokenizer/model.safetensors"@
            && m.files@[0].repo is None && (m.files@[1].repo matches Some(r) && r@
            == "Qwen/Qwen2.5-0.5B"@) && m.files@[2].repo is None && m.files@[3].repo is None,
{
}

/// The view of a download shows each field as it is.
pub proof fn law_view_of_a_download(d: Download)
    ensures
        d.deep_view().name == d.name@,
        d.deep_view().url == d.url@,
        d.deep_view().target == d.target@,
        d.deep_view().partial == d.partial@,
{
}

/// A report of progress says how many bytes of the file are there, and of how many
/// where that is known.
pub proof fn law_progress_lines(file: Seq<char>, bytes: u64, total: Option<u64>)
    ensures
        ({
            let start = "  "@ + file + ": "@ + text::decimal(bytes as nat);
            match total {
                Some(t) => if t > 0 {
                    progress_line(file, bytes, total) == start + "/"@ + text::decimal(t as nat)
                        + " bytes"@
                } else {
                    progress_line(file, bytes, total) == start + " bytes"@
                },
                None => progress_line(file, bytes, total) == start + " bytes"@,
            }
        }),
{
}

} // verus!
