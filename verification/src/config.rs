//! The export's configuration: command-line values merged with the configuration file's.
use vstd::prelude::*;

use crate::chars::{push_char, to_chars};

verus! {

/// The note-taking product that produced the graph.
#[derive(Debug, Clone, Copy, PartialEq, Eq, Structural)]
pub enum PkmProduct {
    Roam,
    Logseq,
}

impl Default for PkmProduct {
    fn default() -> (r: PkmProduct)
        ensures
            r == PkmProduct::Logseq,
    {
        PkmProduct::Logseq
    }
}

/// Why a configuration could not be put together.
#[derive(Debug, Clone, PartialEq, Eq)]
pub enum ConfigError {
    /// A required option was given neither on the command line nor in the file.
    Required(String),
    /// The product name is not one that is supported.
    UnknownProduct,
    /// Pic Store is configured but no API key was given.
    MissingPicStoreKey,
}

impl ConfigError {
    /// The message that describes the error.
    pub fn message(&self) -> (r: String)
        ensures
            self matches ConfigError::Required(name) ==> r@ == seq!['T', 'h', 'e', ' '] + name@
                + seq![
                ' ', 'o', 'p', 't', 'i', 'o', 'n', ' ', 'i', 's', ' ', 'r', 'e', 'q', 'u', 'i', 'r',
                'e', 'd',
            ],
    {
        match self {
            ConfigError::Required(name) => {
                let mut m = "The ".to_owned();
                m.append(name.as_str());
                m.append(" option is required");
                proof {
                    reveal_strlit("The ");
                    reveal_strlit(" option is required");
                    assert("The "@ =~= seq!['T', 'h', 'e', ' ']);
                    assert(" option is required"@ =~= seq![
                        ' ', 'o', 'p', 't', 'i', 'o', 'n', ' ', 'i', 's', ' ', 'r', 'e', 'q', 'u',
                        'i', 'r', 'e', 'd',
                    ]);
                }
                m
            },
            ConfigError::UnknownProduct => "Supported products are roam, logseq".to_owned(),
            ConfigError::MissingPicStoreKey => "The PIC_STORE_KEY environment variable or the pic_store.api_key config key must be set to use Pic Store".to_owned(),
        }
    }
}

pub open spec fn lit_roam() -> Seq<char> {
    seq!['r', 'o', 'a', 'm']
}

pub open spec fn lit_logseq() -> Seq<char> {
    seq!['l', 'o', 'g', 's', 'e', 'q']
}

/// The product a name stands for: `roam` or `logseq`; any other name is unknown.
pub open spec fn product_named(s: Seq<char>) -> Result<PkmProduct, ConfigError> {
    if s == lit_roam() {
        Ok(PkmProduct::Roam)
    } else if s == lit_logseq() {
        Ok(PkmProduct::Logseq)
    } else {
        Err(ConfigError::UnknownProduct)
    }
}

impl PkmProduct {
    /// The product a name stands for: `roam` or `logseq`.
    pub fn parse(s: &str) -> (r: Result<PkmProduct, ConfigError>)
        ensures
            s@ == lit_roam() ==> r == Ok::<PkmProduct, ConfigError>(PkmProduct::Roam),
            s@ == lit_logseq() ==> r == Ok::<PkmProduct, ConfigError>(PkmProduct::Logseq),
            s@ != lit_roam() && s@ != lit_logseq() ==> r == Err::<PkmProduct, ConfigError>(
                ConfigError::UnknownProduct,
            ),
    {
        proof {
            reveal_strlit("roam");
            reveal_strlit("logseq");
            assert("roam"@ =~= lit_roam());
            assert("logseq"@ =~= lit_logseq());
        }
        let c = to_chars(s);
        if crate::chars::chars_equal(&c, "roam") {
            Ok(PkmProduct::Roam)
        } else if crate::chars::chars_equal(&c, "logseq") {
            Ok(PkmProduct::Logseq)
        } else {
            Err(ConfigError::UnknownProduct)
        }
    }
}

impl core::str::FromStr for PkmProduct {
    type Err = ConfigError;

    fn from_str(s: &str) -> (r: Result<PkmProduct, ConfigError>)
        ensures
            r == product_named(s@),
    {
        PkmProduct::parse(s)
    }
}

/// Settings for uploading images to a Pic Store instance.
#[derive(Debug, Clone)]
pub struct PicStoreConfig {
    /// The URL of the Pic Store instance to use.
    pub url: String,
    /// The API key to use for requests to Pic Store.
    pub api_key: Option<String>,
    /// The location prefix to use for Pic Store images.
    pub location_prefix: Option<String>,
    /// The upload profile to use, if not the default one.
    pub upload_profile: Option<String>,
    /// A path to a template to generate <picture> tags.
    pub template: Option<String>,
}

/// The options given on the command line.
#[derive(Debug, Default)]
pub struct CmdlineConfig {
    pub config: Option<String>,
    pub data: Option<String>,
    pub output: Option<String>,
    pub product: Option<PkmProduct>,
    pub safe_write: bool,
}

/// The options of the configuration file.
#[derive(Debug, Default)]
pub struct FileConfig {
    pub track_logseq_timestamps: Option<bool>,
    pub data: Option<String>,
    pub output: Option<String>,
    pub safe_write: Option<bool>,
    pub script: String,
    pub product: Option<PkmProduct>,
    pub base_url: Option<String>,
    pub omit_attributes: Option<Vec<String>>,
    pub highlight_class_prefix: Option<String>,
    pub template: Option<String>,
    pub extension: Option<String>,
    pub tags_attr: Option<String>,
    pub filter_link_only_blocks: Option<bool>,
    pub class_bold: Option<String>,
    pub class_italic: Option<String>,
    pub class_strikethrough: Option<String>,
    pub class_highlight: Option<String>,
    pub class_blockquote: Option<String>,
    pub class_hr: Option<String>,
    pub class_block_embed: Option<String>,
    pub class_page_embed_container: Option<String>,
    pub class_page_embed_title: Option<String>,
    pub class_page_embed_content: Option<String>,
    pub class_attr_name: Option<String>,
    pub class_attr_value: Option<String>,
    pub class_heading1: Option<String>,
    pub class_heading2: Option<String>,
    pub class_heading3: Option<String>,
    pub class_heading4: Option<String>,
    pub promote_headers: Option<bool>,
    pub top_header_level: Option<usize>,
    pub convert_emdash: Option<bool>,
    pub pic_store: Option<PicStoreConfig>,
}

/// The configuration of an export.
#[derive(Debug)]
pub struct Config {
    pub path: String,
    /// Track Logseq timestamps in a separate database. Defaults to true.
    pub track_logseq_timestamps: bool,
    pub output: String,
    pub script: String,
    pub safe_write: bool,
    pub product: PkmProduct,
    pub base_url: Option<String>,
    pub omit_attributes: Vec<String>,
    pub highlight_class_prefix: Option<String>,
    pub template: Option<String>,
    pub extension: String,
    pub tags_attr: Option<String>,
    pub filter_link_only_blocks: bool,
    pub class_bold: String,
    pub class_italic: String,
    pub class_strikethrough: String,
    pub class_highlight: String,
    pub class_blockquote: String,
    pub class_hr: String,
    pub class_block_embed: String,
    pub class_page_embed_container: String,
    pub class_page_embed_title: String,
    pub class_page_embed_content: String,
    pub class_attr_name: String,
    pub class_attr_value: String,
    pub class_heading1: String,
    pub class_heading2: String,
    pub class_heading3: String,
    pub class_heading4: String,
    pub convert_emdash: bool,
    pub promote_headers: bool,
    pub top_header_level: usize,
    pub pic_store: Option<PicStoreConfig>,
}

/// The command line's value if given, else the file's; an error naming the option if neither.
pub fn merge_required<T>(name: &str, first: Option<T>, second: Option<T>) -> (r: Result<T, ConfigError>)
    ensures
        match (first, second) {
            (Some(v), _) => r == Ok::<T, ConfigError>(v),
            (None, Some(v)) => r == Ok::<T, ConfigError>(v),
            (None, None) => r matches Err(ConfigError::Required(n)) && n@ == name@,
        },
{
    match first {
        Some(v) => Ok(v),
        None => match second {
            Some(v) => Ok(v),
            None => Err(ConfigError::Required(name.to_owned())),
        },
    }
}

/// The command line's value if given, else the file's, else the default.
pub fn merge_default<T: Default>(first: Option<T>, second: Option<T>) -> (r: T)
    ensures
        first matches Some(v) ==> r == v,
        first is None ==> (second matches Some(v) ==> r == v),
        first is None && second is None ==> call_ensures(T::default, (), r),
{
    match first {
        Some(v) => v,
        None => match second {
            Some(v) => v,
            None => T::default(),
        },
    }
}

/// A base URL that starts and ends with `/`.
pub open spec fn slashed(url: Seq<char>) -> Seq<char> {
    let pre = if url.len() > 0 && url[0] == '/' {
        url
    } else {
        seq!['/'] + url
    };
    if url.len() > 0 && url.last() == '/' {
        pre
    } else {
        pre + seq!['/']
    }
}

/// Make sure a base URL starts and ends with a slash.
pub fn normalize_base_url(url: &str) -> (r: String)
    ensures
        r@ == slashed(url@),
{
    let c = to_chars(url);
    let starts = c.len() > 0 && c[0] == '/';
    let ends = c.len() > 0 && c[c.len() - 1] == '/';
    let mut out = String::new();
    if !starts {
        push_char(&mut out, '/');
    }
    out.append(url);
    if !ends {
        push_char(&mut out, '/');
    }
    assert(out@ =~= slashed(url@));
    out
}

pub open spec fn text_or_empty(o: Option<String>) -> Seq<char> {
    match o {
        Some(s) => s@,
        None => Seq::empty(),
    }
}

fn or_empty(o: Option<String>) -> (r: String)
    ensures
        r@ == text_or_empty(o),
{
    match o {
        Some(s) => s,
        None => String::new(),
    }
}

fn flag_or(o: Option<bool>, d: bool) -> (r: bool)
    ensures
        r == match o {
            Some(b) => b,
            None => d,
        },
{
    match o {
        Some(b) => b,
        None => d,
    }
}

/// Whether Pic Store is configured with no API key and none is given from the environment.
pub open spec fn pic_store_key_missing(file: FileConfig, env_key: Option<String>) -> bool {
    file.pic_store matches Some(pc) && pc.api_key is None && env_key is None
}

impl Config {
    /// Put the configuration together. A value on the command line wins over the file's; the
    /// data and output locations are required; the base URL gets slashes at both ends; a Pic
    /// Store configured without an API key takes the one from the environment, and without
    /// either the configuration fails.
    pub fn resolve(cmd: CmdlineConfig, file: FileConfig, env_pic_store_key: Option<String>) -> (r:
        Result<Config, ConfigError>)
        ensures
            pic_store_key_missing(file, env_pic_store_key) ==> r == Err::<Config, ConfigError>(
                ConfigError::MissingPicStoreKey,
            ),
            !pic_store_key_missing(file, env_pic_store_key) && cmd.data is None && file.data is None
                ==> (r matches Err(ConfigError::Required(n)) && n@ == seq!['d', 'a', 't', 'a']),
            !pic_store_key_missing(file, env_pic_store_key) && (cmd.data is Some || file.data is Some)
                && cmd.output is None && file.output is None ==> (r matches Err(
                ConfigError::Required(n),
            ) && n@ == seq!['o', 'u', 't', 'p', 'u', 't']),
            !pic_store_key_missing(file, env_pic_store_key) && (cmd.data is Some || file.data is Some)
                && (cmd.output is Some || file.output is Some) ==> (r matches Ok(c) && {
                &&& c.path@ == (if cmd.data is Some {
                    cmd.data->0@
                } else {
                    file.data->0@
                })
                &&& c.output@ == (if cmd.output is Some {
                    cmd.output->0@
                } else {
                    file.output->0@
                })
                &&& c.track_logseq_timestamps == match file.track_logseq_timestamps {
                    Some(b) => b,
                    None => true,
                }
                &&& c.script == file.script
                &&& c.product == match cmd.product {
                    Some(p) => p,
                    None => match file.product {
                        Some(p) => p,
                        None => PkmProduct::Logseq,
                    },
                }
                &&& c.safe_write == (cmd.safe_write || file.safe_write == Some(true))
                &&& match file.base_url {
                    Some(u) => c.base_url matches Some(b) && b@ == slashed(u@),
                    None => c.base_url is None,
                }
                &&& c.omit_attributes@ == match file.omit_attributes {
                    Some(v) => v@,
                    None => Seq::empty(),
                }
                &&& c.highlight_class_prefix == file.highlight_class_prefix
                &&& c.template == file.template
                &&& c.extension@ == text_or_empty(file.extension)
                &&& c.tags_attr == file.tags_attr
                &&& c.filter_link_only_blocks == (file.filter_link_only_blocks == Some(true))
                &&& c.class_bold@ == text_or_empty(file.class_bold)
                &&& c.class_italic@ == text_or_empty(file.class_italic)
                &&& c.class_strikethrough@ == text_or_empty(file.class_strikethrough)
                &&& c.class_highlight@ == text_or_empty(file.class_highlight)
                &&& c.class_blockquote@ == text_or_empty(file.class_blockquote)
                &&& c.class_hr@ == text_or_empty(file.class_hr)
                &&& c.class_block_embed@ == text_or_empty(file.class_block_embed)
                &&& c.class_page_embed_container@ == text_or_empty(file.class_page_embed_container)
                &&& c.class_page_embed_title@ == text_or_empty(file.class_page_embed_title)
                &&& c.class_page_embed_content@ == text_or_empty(file.class_page_embed_content)
                &&& c.class_attr_name@ == text_or_empty(file.class_attr_name)
                &&& c.class_attr_value@ == text_or_empty(file.class_attr_value)
                &&& c.class_heading1@ == text_or_empty(file.class_heading1)
                &&& c.class_heading2@ == text_or_empty(file.class_heading2)
                &&& c.class_heading3@ == text_or_empty(file.class_heading3)
                &&& c.class_heading4@ == text_or_empty(file.class_heading4)
                &&& c.convert_emdash == (file.convert_emdash == Some(true))
                &&& c.promote_headers == (file.promote_headers == Some(true))
                &&& c.top_header_level == match file.top_header_level {
                    Some(l) => l,
                    None => 1,
                }
                &&& match file.pic_store {
                    Some(pc) => c.pic_store matches Some(q) && q.url == pc.url
                        && q.location_prefix == pc.location_prefix && q.upload_profile
                        == pc.upload_profile && q.template == pc.template && q.api_key == if pc.api_key
                        is Some {
                        pc.api_key
                    } else {
                        env_pic_store_key
                    },
                    None => c.pic_store is None,
                }
            }),
    {
        proof {
            reveal_strlit("data");
            reveal_strlit("output");
            assert("data"@ =~= seq!['d', 'a', 't', 'a']);
            assert("output"@ =~= seq!['o', 'u', 't', 'p', 'u', 't']);
        }
        let FileConfig {
            track_logseq_timestamps,
            data,
            output,
            safe_write,
            script,
            product,
            base_url,
            omit_attributes,
            highlight_class_prefix,
            template,
            extension,
            tags_attr,
            filter_link_only_blocks,
            class_bold,
            class_italic,
            class_strikethrough,
            class_highlight,
            class_blockquote,
            class_hr,
            class_block_embed,
            class_page_embed_container,
            class_page_embed_title,
            class_page_embed_content,
            class_attr_name,
            class_attr_value,
            class_heading1,
            class_heading2,
            class_heading3,
            class_heading4,
            promote_headers,
            top_header_level,
            convert_emdash,
            pic_store,
        } = file;
        let pic_store = match pic_store {
            Some(pc) => {
                if pc.api_key.is_none() {
                    match env_pic_store_key {
                        Some(k) => {
                            let mut pc = pc;
                            pc.api_key = Some(k);
                            Some(pc)
                        },
                        None => {
                            return Err(ConfigError::MissingPicStoreKey);
                        },
                    }
                } else {
                    Some(pc)
                }
            },
            None => None,
        };
        let path = merge_required("data", cmd.data, data)?;
        let output = merge_required("output", cmd.output, output)?;
        let product = merge_default(cmd.product, product);
        let product = product;
        let base_url = match base_url {
            Some(u) => Some(normalize_base_url(u.as_str())),
            None => None,
        };
        let omit_attributes = match omit_attributes {
            Some(v) => v,
            None => Vec::new(),
        };
        Ok(
            Config {
                path,
                track_logseq_timestamps: flag_or(track_logseq_timestamps, true),
                output,
                script,
                product,
                safe_write: cmd.safe_write || flag_or(safe_write, false),
                base_url,
                omit_attributes,
                highlight_class_prefix,
                template,
                extension: or_empty(extension),
                tags_attr,
                filter_link_only_blocks: flag_or(filter_link_only_blocks, false),
                class_bold: or_empty(class_bold),
                class_italic: or_empty(class_italic),
                class_strikethrough: or_empty(class_strikethrough),
                class_highlight: or_empty(class_highlight),
                class_blockquote: or_empty(class_blockquote),
                class_hr: or_empty(class_hr),
                class_block_embed: or_empty(class_block_embed),
                class_page_embed_container: or_empty(class_page_embed_container),
                class_page_embed_title: or_empty(class_page_embed_title),
                class_page_embed_content: or_empty(class_page_embed_content),
                class_attr_name: or_empty(class_attr_name),
                class_attr_value: or_empty(class_attr_value),
                class_heading1: or_empty(class_heading1),
                class_heading2: or_empty(class_heading2),
                class_heading3: or_empty(class_heading3),
                class_heading4: or_empty(class_heading4),
                convert_emdash: flag_or(convert_emdash, false),
                promote_headers: flag_or(promote_headers, false),
                top_header_level: match top_header_level {
                    Some(l) => l,
                    None => 1,
                },
                pic_store,
            },
        )
    }
}

} // verus!
