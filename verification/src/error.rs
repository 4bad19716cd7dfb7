//! The error taxonomy of the pipeline and its user-facing wording.

use vstd::prelude::*;

verus! {

/// `anyhow::Error` is carried opaquely inside [`AppError::Internal`];
/// the pipeline never looks inside it.
#[verifier::external_type_specification]
#[verifier::external_body]
pub struct ExAnyhowError(anyhow::Error);

/// What went wrong while handling a turn or a background task.
#[derive(Debug)]
pub enum AppError {
    /// The completion capability could not produce a reply.
    AIGeneration(String),
    /// The embedding capability could not vectorize text.
    Embedding(String),
    /// The durable store failed to read, write or delete.
    Store(String),
    /// The chat surface could not be reached.
    Discord(String),
    /// The configuration could not be loaded.
    Config(String),
    /// No conversation exists for the given channel.
    ConversationNotFound(u64),
    /// The caller may not perform the operation.
    PermissionDenied { reason: String },
    /// An unclassified failure, carried through unchanged.
    Internal(anyhow::Error),
}

/// The text shown to the human initiator for each error kind.
pub open spec fn user_facing_view(e: &AppError) -> Seq<char> {
    match e {
        AppError::AIGeneration(_) => "AI応答の生成に失敗しました。"@,
        AppError::Embedding(_) => "テキストの処理に失敗しました。"@,
        AppError::Store(_) => "記憶の検索に失敗しました。"@,
        AppError::Discord(_) => "Discordとの通信に失敗しました。"@,
        AppError::Config(_) => "設定の読み込みに失敗しました。"@,
        AppError::ConversationNotFound(_) => "会話が見つかりませんでした。"@,
        AppError::PermissionDenied { .. } => "権限がありません。"@,
        AppError::Internal(_) => "予期しないエラーが発生しました。"@,
    }
}

impl AppError {
    /// The message shown to the human initiator: it names the failed
    /// stage, never the internal detail.
    pub fn user_facing_message(&self) -> (r: &str)
        ensures
            r@ == user_facing_view(self),
    {
        match self {
            AppError::AIGeneration(_) => "AI応答の生成に失敗しました。",
            AppError::Embedding(_) => "テキストの処理に失敗しました。",
            AppError::Store(_) => "記憶の検索に失敗しました。",
            AppError::Discord(_) => "Discordとの通信に失敗しました。",
            AppError::Config(_) => "設定の読み込みに失敗しました。",
            AppError::ConversationNotFound(_) => "会話が見つかりませんでした。",
            AppError::PermissionDenied { .. } => "権限がありません。",
            AppError::Internal(_) => "予期しないエラーが発生しました。",
        }
    }
}

} // verus!
