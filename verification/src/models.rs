//! Model-name classification and the model listings served to
//! callers.

use vstd::prelude::*;

verus! {

/// Classifies model names as "big" or not.
pub trait ModelClassifier {
    /// Which names the classifier counts as big.
    spec fn spec_is_big(&self, name: Seq<char>) -> bool;

    fn is_big_model(&self, model_name: &str) -> (r: bool)
        ensures
            r == self.spec_is_big(model_name@),
    ;
}

/// Classifier built from a statically configured allow-list.
pub struct BigModelList {
    pub models: Vec<String>,
}

impl BigModelList {
    pub fn new(big_models: Vec<String>) -> (r: Self)
        ensures
            r.models@ == big_models@,
    {
        BigModelList { models: big_models }
    }
}

impl ModelClassifier for BigModelList {
    open spec fn spec_is_big(&self, name: Seq<char>) -> bool {
        exists|i: int| 0 <= i < self.models@.len() && (#[trigger] self.models@[i])@ == name
    }

    fn is_big_model(&self, model_name: &str) -> (r: bool) {
        let target: String = model_name.to_owned();
        let mut i: usize = 0;
        while i < self.models.len()
            invariant
                i <= self.models@.len(),
                target@ == model_name@,
                forall|j: int| 0 <= j < i as int ==> (#[trigger] self.models@[j])@ != model_name@,
            decreases self.models@.len() - i,
        {
            if self.models[i] == target {
                return true;
            }
            i += 1;
        }
        false
    }
}

/// One entry of the native model listing. Only the name is ever
/// filled by this proxy; the remaining attributes stay empty.
pub struct GeminiModel {
    pub name: String,
    pub version: Option<String>,
    pub display_name: String,
    pub description: Option<String>,
    pub input_token_limit: Option<u64>,
    pub output_token_limit: Option<u64>,
    pub supported_generation_methods: Option<Vec<String>>,
    pub top_k: Option<u64>,
    pub thinking: Option<bool>,
}

impl GeminiModel {
    /// A listing entry carrying nothing but the model's name.
    pub fn from_name(name: String) -> (r: Self)
        ensures
            r.name@ == name@,
            r.display_name@ == name@,
            r.version is None,
            r.description is None,
            r.input_token_limit is None,
            r.output_token_limit is None,
            r.supported_generation_methods is None,
            r.top_k is None,
            r.thinking is None,
    {
        let display = name.clone();
        GeminiModel {
            name,
            version: None,
            display_name: display,
            description: None,
            input_token_limit: None,
            output_token_limit: None,
            supported_generation_methods: None,
            top_k: None,
            thinking: None,
        }
    }
}

/// The native model listing.
pub struct GeminiModelList {
    pub models: Vec<GeminiModel>,
}

/// One entry of the OpenAI-compatible listing.
pub struct OpenAIModel {
    pub id: String,
    pub object: String,
    pub owned_by: String,
    pub display_name: String,
}

/// The OpenAI-compatible listing.
pub struct OpenAIModelList {
    pub object: String,
    pub data: Vec<OpenAIModel>,
}

/// The native listing for the configured model keys, in order.
pub fn native_model_list(model_list: &Vec<String>) -> (r: GeminiModelList)
    ensures
        r.models@.len() == model_list@.len(),
        forall|i: int|
            0 <= i < model_list@.len() ==> (#[trigger] r.models@[i]).name@ == model_list@[i]@
                && r.models@[i].display_name@ == model_list@[i]@,
{
    let mut models: Vec<GeminiModel> = Vec::new();
    let mut i: usize = 0;
    while i < model_list.len()
        invariant
            i <= model_list@.len(),
            models@.len() == i as int,
            forall|j: int|
                0 <= j < i as int ==> (#[trigger] models@[j]).name@ == model_list@[j]@
                    && models@[j].display_name@ == model_list@[j]@,
        decreases model_list@.len() - i,
    {
        models.push(GeminiModel::from_name(model_list[i].clone()));
        i += 1;
    }
    GeminiModelList { models }
}

/// The OpenAI-compatible view of the native listing: every model
/// under its own id, owned by the upstream vendor.
pub fn openai_model_list(native: &GeminiModelList) -> (r: OpenAIModelList)
    ensures
        r.object@ == "list"@,
        r.data@.len() == native.models@.len(),
        forall|i: int|
            0 <= i < native.models@.len() ==> {
                &&& (#[trigger] r.data@[i]).id@ == native.models@[i].name@
                &&& r.data@[i].object@ == "model"@
                &&& r.data@[i].owned_by@ == "google"@
                &&& r.data@[i].display_name@ == native.models@[i].display_name@
            },
{
    let mut data: Vec<OpenAIModel> = Vec::new();
    let mut i: usize = 0;
    while i < native.models.len()
        invariant
            i <= native.models@.len(),
            data@.len() == i as int,
            forall|j: int|
                0 <= j < i as int ==> {
                    &&& (#[trigger] data@[j]).id@ == native.models@[j].name@
                    &&& data@[j].object@ == "model"@
                    &&& data@[j].owned_by@ == "google"@
                    &&& data@[j].display_name@ == native.models@[j].display_name@
                },
        decreases native.models@.len() - i,
    {
        data.push(
            OpenAIModel {
                id: native.models[i].name.clone(),
                object: "model".to_owned(),
                owned_by: "google".to_owned(),
                display_name: native.models[i].display_name.clone(),
            },
        );
        i += 1;
    }
    OpenAIModelList { object: "list".to_owned(), data }
}

} // verus!
