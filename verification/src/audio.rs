//! Requests for the transcription and translation of speech.

use crate::form::{MyForm, PartView};
use vstd::prelude::*;

verus! {

/// The format in which the service writes what it heard.
#[derive(Debug, Clone, Copy, PartialEq, Eq, Structural)]
pub enum OutputFormat {
    JSON,
    Text,
    SRT,
    VerboseJSON,
    VTT,
}

impl OutputFormat {
    /// The name by which the service knows this format.
    pub open spec fn name(self) -> Seq<char> {
        match self {
            OutputFormat::JSON => "json"@,
            OutputFormat::Text => "text"@,
            OutputFormat::SRT => "srt"@,
            OutputFormat::VerboseJSON => "verbose_json"@,
            OutputFormat::VTT => "vtt"@,
        }
    }

    /// The name by which the service knows this format.
    pub fn as_str(&self) -> (name: &'static str)
        ensures
            name@ == self.name(),
    {
        match self {
            OutputFormat::JSON => "json",
            OutputFormat::Text => "text",
            OutputFormat::SRT => "srt",
            OutputFormat::VerboseJSON => "verbose_json",
            OutputFormat::VTT => "vtt",
        }
    }

    /// The name by which the service knows this format, as a string of
    /// its own.
    pub fn to_string(&self) -> (name: String)
        ensures
            name@ == self.name(),
    {
        self.as_str().to_owned()
    }
}

impl Default for OutputFormat {
    fn default() -> (format: OutputFormat)
        ensures
            format == OutputFormat::Text,
    {
        OutputFormat::Text
    }
}

/// A request to transcribe a recording.
#[derive(Debug, Clone)]
pub struct CreateTranscriptionRequest {
    pub file: Vec<u8>,
    pub file_name: String,
    pub response_format: OutputFormat,
    pub model: Option<String>,
}

/// A request to translate a recording.
#[derive(Debug, Clone)]
pub struct CreateTranslationRequest {
    pub file: Vec<u8>,
    pub file_name: String,
    pub response_format: OutputFormat,
}

impl Default for CreateTranscriptionRequest {
    fn default() -> (request: CreateTranscriptionRequest)
        ensures
            request.file@.len() == 0,
            request.file_name@ == Seq::<char>::empty(),
            request.response_format == OutputFormat::Text,
            request.model is None,
    {
        CreateTranscriptionRequest {
            file: Vec::new(),
            file_name: String::new(),
            response_format: OutputFormat::Text,
            model: None,
        }
    }
}

impl CreateTranscriptionRequest {
    /// A request to transcribe `file` as plain text with the model
    /// `whisper-1`.
    pub fn new_as_text(file: Vec<u8>, file_name: &str) -> (request: CreateTranscriptionRequest)
        ensures
            request.file == file,
            request.file_name@ == file_name@,
            request.response_format == OutputFormat::Text,
            request.model matches Some(model) && model@ == "whisper-1"@,
    {
        CreateTranscriptionRequest {
            file,
            file_name: file_name.to_owned(),
            response_format: OutputFormat::Text,
            model: Some("whisper-1".to_owned()),
        }
    }

    /// The form that a deployment on Azure takes: the format, then the
    /// recording under its file name. The model is left out, Azure goes by
    /// the deployment.
    pub fn azure_form(&self) -> (form: MyForm)
        ensures
            form@ == seq![
                PartView::Text { name: "response_format"@, value: self.response_format.name() },
                PartView::File { name: self.file_name@, bytes: self.file@ },
            ],
    {
        let form = MyForm::new().text("response_format", self.response_format.as_str()).file(
            self.file_name.as_str(),
            self.file.clone(),
        );
        assert(form@ =~= seq![
            PartView::Text { name: "response_format"@, value: self.response_format.name() },
            PartView::File { name: self.file_name@, bytes: self.file@ },
        ]);
        form
    }

    /// The form that the service as OpenAI hosts it takes: the format, the
    /// model, then the recording under its file name. A request without a
    /// model cannot be sent there.
    pub fn openai_form(&self) -> (form: MyForm)
        requires
            self.model is Some,
        ensures
            form@ == seq![
                PartView::Text { name: "response_format"@, value: self.response_format.name() },
                PartView::Text { name: "model"@, value: self.model->Some_0@ },
                PartView::File { name: self.file_name@, bytes: self.file@ },
            ],
    {
        let model: &str = match &self.model {
            Some(model) => model.as_str(),
            None => "",
        };
        let form = MyForm::new().text("response_format", self.response_format.as_str()).text(
            "model",
            model,
        ).file(self.file_name.as_str(), self.file.clone());
        assert(form@ =~= seq![
            PartView::Text { name: "response_format"@, value: self.response_format.name() },
            PartView::Text { name: "model"@, value: self.model->Some_0@ },
            PartView::File { name: self.file_name@, bytes: self.file@ },
        ]);
        form
    }
}

} // verus!
