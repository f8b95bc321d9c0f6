use crate::image_utils::ValidationError;
use vstd::prelude::*;
use vstd::string::StringExecFns;

verus! {

/// Why no thumbnail could be made.
#[derive(Debug, Clone)]
pub enum ThumbnailError {
    /// The source file does not exist.
    FileNotFound,
    /// The extension of the source file, given in lower case, names no
    /// format that the library reads.
    UnsupportedFormat(String),
    /// The source image could not be decoded; the text is the decoder's.
    ImageDecode(String),
    /// The layered image could not be flattened; the text is the decoder's.
    PsdDecode(String),
    /// The flattened layers hold fewer samples than the image has pixels.
    PixelData,
    /// The decoded image has dimensions that are not accepted.
    Validation(ValidationError),
    /// The thumbnail could not be encoded; the text is the encoder's.
    Encode(String),
    /// Reading the source file or writing the cache failed; the text is the
    /// operating system's.
    Io(String),
    /// The generation of a thumbnail was told of something that it was not
    /// waiting for.
    UnexpectedEvent,
}

/// An error as a mathematical value.
pub enum Failure {
    FileNotFound,
    UnsupportedFormat(Seq<char>),
    ImageDecode(Seq<char>),
    PsdDecode(Seq<char>),
    PixelData,
    Validation(ValidationError),
    Encode(Seq<char>),
    Io(Seq<char>),
    UnexpectedEvent,
}

/// How the making of a file ended, as a mathematical value.
pub open spec fn outcome_view(outcome: Result<Vec<u8>, ThumbnailError>) -> Result<Seq<u8>, Failure> {
    match outcome {
        Ok(bytes) => Ok(bytes@),
        Err(error) => Err(error@),
    }
}

impl View for ThumbnailError {
    type V = Failure;

    open spec fn view(&self) -> Failure {
        match self {
            ThumbnailError::FileNotFound => Failure::FileNotFound,
            ThumbnailError::UnsupportedFormat(extension) => Failure::UnsupportedFormat(extension@),
            ThumbnailError::ImageDecode(cause) => Failure::ImageDecode(cause@),
            ThumbnailError::PsdDecode(cause) => Failure::PsdDecode(cause@),
            ThumbnailError::PixelData => Failure::PixelData,
            ThumbnailError::Validation(reason) => Failure::Validation(*reason),
            ThumbnailError::Encode(cause) => Failure::Encode(cause@),
            ThumbnailError::Io(cause) => Failure::Io(cause@),
            ThumbnailError::UnexpectedEvent => Failure::UnexpectedEvent,
        }
    }
}

impl ThumbnailError {
    /// The text shown to the user for this error.
    pub open spec fn message_spec(self) -> Seq<char> {
        match self {
            ThumbnailError::FileNotFound => "ファイルが存在しません"@,
            ThumbnailError::UnsupportedFormat(extension) => "サポートされていないファイル形式: "@
                + extension@,
            ThumbnailError::ImageDecode(cause) => "画像読み込みエラー: "@ + cause@,
            ThumbnailError::PsdDecode(cause) => "PSD読み込みエラー: "@ + cause@,
            ThumbnailError::PixelData => "画像データの変換に失敗"@,
            ThumbnailError::Validation(reason) => reason.message_spec(),
            ThumbnailError::Encode(cause) => "サムネイル書き出しエラー: "@ + cause@,
            ThumbnailError::Io(cause) => cause@,
            ThumbnailError::UnexpectedEvent => "予期しないイベントです"@,
        }
    }

    /// Renders the error as the text shown to the user.
    pub fn message(&self) -> (text: String)
        ensures
            text@ == self.message_spec(),
    {
        match self {
            ThumbnailError::FileNotFound => String::from_str("ファイルが存在しません"),
            ThumbnailError::UnsupportedFormat(extension) => String::from_str(
                "サポートされていないファイル形式: ",
            ).concat(extension.as_str()),
            ThumbnailError::ImageDecode(cause) => String::from_str("画像読み込みエラー: ").concat(
                cause.as_str(),
            ),
            ThumbnailError::PsdDecode(cause) => String::from_str("PSD読み込みエラー: ").concat(
                cause.as_str(),
            ),
            ThumbnailError::PixelData => String::from_str("画像データの変換に失敗"),
            ThumbnailError::Validation(reason) => reason.message(),
            ThumbnailError::Encode(cause) => String::from_str("サムネイル書き出しエラー: ").concat(
                cause.as_str(),
            ),
            ThumbnailError::Io(cause) => cause.clone(),
            ThumbnailError::UnexpectedEvent => String::from_str("予期しないイベントです"),
        }
    }
}

} // verus!
