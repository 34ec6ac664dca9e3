//! The closed vocabularies by which an asset's file name is classified:
//! binding variant, operating system and architecture.

use crate::text::{contains, contains_text, lowercase_of, to_lowercase};
use vstd::prelude::*;

verus! {

/// The texts that a slice of keywords holds.
pub open spec fn keyword_texts(keywords: Seq<&str>) -> Seq<Seq<char>> {
    keywords.map_values(|k: &str| k@)
}

/// Whether one of the keywords stands somewhere in `text`.
pub open spec fn any_keyword_in(keywords: Seq<Seq<char>>, text: Seq<char>) -> bool {
    exists|i: int| 0 <= i < keywords.len() && contains_text(text, #[trigger] keywords[i])
}

/// Whether one of the keywords stands somewhere in `text`.
pub fn keyword_in(keywords: &[&str], text: &str) -> (found: bool)
    ensures
        found == any_keyword_in(keyword_texts(keywords@), text@),
{
    let ghost texts = keyword_texts(keywords@);
    let mut i: usize = 0;
    while i < keywords.len()
        invariant
            i <= keywords.len(),
            texts == keyword_texts(keywords@),
            forall|j: int| 0 <= j < i ==> !contains_text(text@, #[trigger] texts[j]),
        decreases keywords.len() - i,
    {
        if contains(text, keywords[i]) {
            assert(contains_text(text@, texts[i as int]));
            return true;
        }
        i += 1;
    }
    false
}

/// One entry of a vocabulary: a set of keywords and a label.
pub trait Tag: Sized {
    /// The keywords of the entry.
    spec fn keywords(&self) -> Seq<Seq<char>>;

    /// The label shown for the entry.
    spec fn label(&self) -> Seq<char>;

    /// The first entry of the vocabulary, in its fixed order, of which a
    /// keyword stands in `lowered`.
    spec fn classified(lowered: Seq<char>) -> Option<Self>;

    /// The entry for a keyword in any case: the keyword is lowered first.
    fn from_keyword(keyword: &str) -> (tag: Option<Self>)
        ensures
            tag == Self::classified(lowercase_of(keyword@)),
    ;

    /// The entry for a text that is already in lower case.
    fn from_lowered(lowered: &str) -> (tag: Option<Self>)
        ensures
            tag == Self::classified(lowered@),
    ;

    fn to_keywords(&self) -> (keywords: &'static [&'static str])
        ensures
            keyword_texts(keywords@) == self.keywords(),
    ;

    fn get_labels(&self) -> (label: &'static str)
        ensures
            label@ == self.label(),
    ;

    /// Whether one of the entry's keywords stands in `text`, as it is
    /// written.
    fn tag_in(&self, text: &str) -> (found: bool)
        ensures
            found == any_keyword_in(self.keywords(), text@),
    ;
}

/// The binding or packaging variant of an asset.
#[derive(Debug, Clone, Copy, PartialEq, Eq, Structural)]
pub enum Language {
    CSharp,
    ExportTemplate,
    AARLib,
}

/// The operating system an asset is built for.
#[derive(Debug, Clone, Copy, PartialEq, Eq, Structural)]
pub enum OS {
    Windows,
    Linux,
    MacOS,
}

/// The processor architecture an asset is built for.
#[derive(Debug, Clone, Copy, PartialEq, Eq, Structural)]
pub enum Architecture {
    AMD64,
    AMD32,
    ARM64,
    ARM32,
    Universal,
}

impl Tag for Language {
    open spec fn keywords(&self) -> Seq<Seq<char>> {
        match self {
            Language::CSharp => seq!["mono"@],
            Language::ExportTemplate => seq!["export_templates"@],
            Language::AARLib => seq!["aar"@],
        }
    }

    open spec fn label(&self) -> Seq<char> {
        match self {
            Language::CSharp => "C#"@,
            Language::ExportTemplate => "导出模板"@,
            Language::AARLib => "AAR库"@,
        }
    }

    open spec fn classified(lowered: Seq<char>) -> Option<Self> {
        if any_keyword_in(Language::CSharp.keywords(), lowered) {
            Some(Language::CSharp)
        } else if any_keyword_in(Language::ExportTemplate.keywords(), lowered) {
            Some(Language::ExportTemplate)
        } else if any_keyword_in(Language::AARLib.keywords(), lowered) {
            Some(Language::AARLib)
        } else {
            None
        }
    }

    fn from_keyword(keyword: &str) -> (tag: Option<Self>) {
        let lowered = to_lowercase(keyword);
        Self::from_lowered(lowered.as_str())
    }

    fn from_lowered(lowered: &str) -> (tag: Option<Self>) {
        if Language::CSharp.tag_in(lowered) {
            Some(Language::CSharp)
        } else if Language::ExportTemplate.tag_in(lowered) {
            Some(Language::ExportTemplate)
        } else if Language::AARLib.tag_in(lowered) {
            Some(Language::AARLib)
        } else {
            None
        }
    }

    fn to_keywords(&self) -> (keywords: &'static [&'static str]) {
        let keywords: &'static [&'static str] = match self {
            Language::CSharp => &["mono"],
            Language::ExportTemplate => &["export_templates"],
            Language::AARLib => &["aar"],
        };
        assert(keyword_texts(keywords@) =~= self.keywords());
        keywords
    }

    fn get_labels(&self) -> (label: &'static str) {
        match self {
            Language::CSharp => "C#",
            Language::ExportTemplate => "导出模板",
            Language::AARLib => "AAR库",
        }
    }

    fn tag_in(&self, text: &str) -> (found: bool) {
        keyword_in(self.to_keywords(), text)
    }
}

impl Tag for OS {
    open spec fn keywords(&self) -> Seq<Seq<char>> {
        match self {
            OS::Windows => seq!["win"@],
            OS::Linux => seq!["linux"@, "x11"@],
            OS::MacOS => seq!["macos"@, "osx"@],
        }
    }

    open spec fn label(&self) -> Seq<char> {
        match self {
            OS::Windows => "Windows"@,
            OS::Linux => "Linux"@,
            OS::MacOS => "macOS"@,
        }
    }

    open spec fn classified(lowered: Seq<char>) -> Option<Self> {
        if any_keyword_in(OS::Windows.keywords(), lowered) {
            Some(OS::Windows)
        } else if any_keyword_in(OS::Linux.keywords(), lowered) {
            Some(OS::Linux)
        } else if any_keyword_in(OS::MacOS.keywords(), lowered) {
            Some(OS::MacOS)
        } else {
            None
        }
    }

    fn from_keyword(keyword: &str) -> (tag: Option<Self>) {
        let lowered = to_lowercase(keyword);
        Self::from_lowered(lowered.as_str())
    }

    fn from_lowered(lowered: &str) -> (tag: Option<Self>) {
        if OS::Windows.tag_in(lowered) {
            Some(OS::Windows)
        } else if OS::Linux.tag_in(lowered) {
            Some(OS::Linux)
        } else if OS::MacOS.tag_in(lowered) {
            Some(OS::MacOS)
        } else {
            None
        }
    }

    fn to_keywords(&self) -> (keywords: &'static [&'static str]) {
        let keywords: &'static [&'static str] = match self {
            OS::Windows => &["win"],
            OS::Linux => &["linux", "x11"],
            OS::MacOS => &["macos", "osx"],
        };
        assert(keyword_texts(keywords@) =~= self.keywords());
        keywords
    }

    fn get_labels(&self) -> (label: &'static str) {
        match self {
            OS::Windows => "Windows",
            OS::Linux => "Linux",
            OS::MacOS => "macOS",
        }
    }

    fn tag_in(&self, text: &str) -> (found: bool) {
        keyword_in(self.to_keywords(), text)
    }
}

impl Tag for Architecture {
    open spec fn keywords(&self) -> Seq<Seq<char>> {
        match self {
            Architecture::AMD64 => seq![".64"@, "_64"@, "win64"@, "osx64"@],
            Architecture::AMD32 => seq![".32"@, "_32"@, "win32"@, "osx32"@],
            Architecture::ARM64 => seq!["arm64"@],
            Architecture::ARM32 => seq!["arm32"@],
            Architecture::Universal => seq!["universal"@],
        }
    }

    open spec fn label(&self) -> Seq<char> {
        match self {
            Architecture::AMD64 => "AMD64"@,
            Architecture::AMD32 => "AMD32"@,
            Architecture::ARM64 => "ARM64"@,
            Architecture::ARM32 => "ARM32"@,
            Architecture::Universal => "Universal"@,
        }
    }

    open spec fn classified(lowered: Seq<char>) -> Option<Self> {
        if any_keyword_in(Architecture::AMD64.keywords(), lowered) {
            Some(Architecture::AMD64)
        } else if any_keyword_in(Architecture::AMD32.keywords(), lowered) {
            Some(Architecture::AMD32)
        } else if any_keyword_in(Architecture::ARM64.keywords(), lowered) {
            Some(Architecture::ARM64)
        } else if any_keyword_in(Architecture::ARM32.keywords(), lowered) {
            Some(Architecture::ARM32)
        } else if any_keyword_in(Architecture::Universal.keywords(), lowered) {
            Some(Architecture::Universal)
        } else {
            None
        }
    }

    fn from_keyword(keyword: &str) -> (tag: Option<Self>) {
        let lowered = to_lowercase(keyword);
        Self::from_lowered(lowered.as_str())
    }

    fn from_lowered(lowered: &str) -> (tag: Option<Self>) {
        if Architecture::AMD64.tag_in(lowered) {
            Some(Architecture::AMD64)
        } else if Architecture::AMD32.tag_in(lowered) {
            Some(Architecture::AMD32)
        } else if Architecture::ARM64.tag_in(lowered) {
            Some(Architecture::ARM64)
        } else if Architecture::ARM32.tag_in(lowered) {
            Some(Architecture::ARM32)
        } else if Architecture::Universal.tag_in(lowered) {
            Some(Architecture::Universal)
        } else {
            None
        }
    }

    fn to_keywords(&self) -> (keywords: &'static [&'static str]) {
        let keywords: &'static [&'static str] = match self {
            Architecture::AMD64 => &[".64", "_64", "win64", "osx64"],
            Architecture::AMD32 => &[".32", "_32", "win32", "osx32"],
            Architecture::ARM64 => &["arm64"],
            Architecture::ARM32 => &["arm32"],
            Architecture::Universal => &["universal"],
        };
        assert(keyword_texts(keywords@) =~= self.keywords());
        keywords
    }

    fn get_labels(&self) -> (label: &'static str) {
        match self {
            Architecture::AMD64 => "AMD64",
            Architecture::AMD32 => "AMD32",
            Architecture::ARM64 => "ARM64",
            Architecture::ARM32 => "ARM32",
            Architecture::Universal => "Universal",
        }
    }

    fn tag_in(&self, text: &str) -> (found: bool) {
        keyword_in(self.to_keywords(), text)
    }
}

impl OS {
    /// The operating system that the platform's identifier names; Windows
    /// where the identifier names none that is known.
    pub open spec fn local(identifier: Seq<char>) -> OS {
        match OS::classified(lowercase_of(identifier)) {
            Some(os) => os,
            None => OS::Windows,
        }
    }

    /// The operating system of the machine, from the identifier that the
    /// platform gives for it.
    pub fn get_local_os(identifier: &str) -> (os: Self)
        ensures
            os == OS::local(identifier@),
    {
        match OS::from_keyword(identifier) {
            Some(os) => os,
            None => OS::Windows,
        }
    }
}

impl Architecture {
    /// The architecture that the platform's identifier names; 64-bit where
    /// the identifier names none that is known.
    pub open spec fn local(identifier: Seq<char>) -> Architecture {
        match Architecture::classified(lowercase_of(identifier)) {
            Some(arch) => arch,
            None => Architecture::AMD64,
        }
    }

    /// The architecture of the machine, from the identifier that the
    /// platform gives for it.
    pub fn get_local_arch(identifier: &str) -> (arch: Self)
        ensures
            arch == Architecture::local(identifier@),
    {
        match Architecture::from_keyword(identifier) {
            Some(arch) => arch,
            None => Architecture::AMD64,
        }
    }
}

/// The label of an entry, where one of its keywords stands in `text`.
pub open spec fn label_if<T: Tag>(tag: T, text: Seq<char>) -> Seq<Seq<char>> {
    if any_keyword_in(tag.keywords(), text) {
        seq![tag.label()]
    } else {
        Seq::empty()
    }
}

/// The labels of all entries of which a keyword stands in `text`: variants
/// first, then operating systems, then architectures, each vocabulary in its
/// fixed order.
pub open spec fn tags_of(text: Seq<char>) -> Seq<Seq<char>> {
    label_if(Language::CSharp, text) + label_if(Language::ExportTemplate, text) + label_if(
        Language::AARLib,
        text,
    ) + label_if(OS::Windows, text) + label_if(OS::Linux, text) + label_if(OS::MacOS, text)
        + label_if(Architecture::AMD64, text) + label_if(Architecture::AMD32, text) + label_if(
        Architecture::ARM64,
        text,
    ) + label_if(Architecture::ARM32, text) + label_if(Architecture::Universal, text)
}

/// The texts that a vector of strings holds.
pub open spec fn texts_of(items: Seq<String>) -> Seq<Seq<char>> {
    items.map_values(|s: String| s@)
}

/// Adds the label of an entry where one of its keywords stands in `text`.
fn push_label<T: Tag>(tags: &mut Vec<String>, tag: T, text: &str)
    ensures
        texts_of(final(tags)@) == texts_of(old(tags)@) + label_if(tag, text@),
{
    if tag.tag_in(text) {
        tags.push(tag.get_labels().to_owned());
        assert(texts_of(tags@) =~= texts_of(old(tags)@) + seq![tag.label()]);
    } else {
        assert(texts_of(tags@) =~= texts_of(old(tags)@) + Seq::<Seq<char>>::empty());
    }
}

/// The labels of all entries of which a keyword stands in `text`.
pub fn get_tags(text: &str) -> (tags: Vec<String>)
    ensures
        texts_of(tags@) == tags_of(text@),
{
    let mut tags: Vec<String> = Vec::new();
    assert(texts_of(tags@) =~= Seq::<Seq<char>>::empty());
    push_label(&mut tags, Language::CSharp, text);
    push_label(&mut tags, Language::ExportTemplate, text);
    push_label(&mut tags, Language::AARLib, text);
    push_label(&mut tags, OS::Windows, text);
    push_label(&mut tags, OS::Linux, text);
    push_label(&mut tags, OS::MacOS, text);
    push_label(&mut tags, Architecture::AMD64, text);
    push_label(&mut tags, Architecture::AMD32, text);
    push_label(&mut tags, Architecture::ARM64, text);
    push_label(&mut tags, Architecture::ARM32, text);
    push_label(&mut tags, Architecture::Universal, text);
    assert(texts_of(tags@) =~= tags_of(text@));
    tags
}

/// The endings by which a file counts as one the manager can handle.
pub open spec fn supported_endings() -> Seq<Seq<char>> {
    seq![".aar"@, ".zip"@, ".txt"@, ".tpz"@, ".tar.xz"@, ".sha256"@, ".sha512"@]
}

/// Whether the file name holds one of the supported endings.
pub fn is_support_file(file_name: &str) -> (supported: bool)
    ensures
        supported == any_keyword_in(supported_endings(), file_name@),
{
    let endings: [&'static str; 7] = [".aar", ".zip", ".txt", ".tpz", ".tar.xz", ".sha256", ".sha512"];
    assert(keyword_texts(endings@) =~= supported_endings());
    keyword_in(endings.as_slice(), file_name)
}

} // verus!
