use crate::bytesutil::{extract_quoted, spec_extract_quoted};
use crate::canonical::{
    canonical_chat_id, canonicalize, chat_id_is_canonical, dec_str_i64, i64_to_dec_string,
};
use crate::errors::PentaractError;
use crate::scheduler::{worker_healthy, WorkerPool};
use vstd::prelude::*;
use vstd::string::{StrSliceExecFns, StringExecFns, StringSliceAdditionalSpecFns};

verus! {

/// The lowest HTTP status the backend uses for success.
pub const STATUS_OK_LOW: u16 = 200;

/// The first HTTP status beyond the success range.
pub const STATUS_OK_HIGH: u16 = 300;

/// The key that precedes the stored object id in the backend's upload
/// response envelope.
pub open spec fn upload_id_pattern() -> Seq<u8> {
    "\"file_id\":\"".spec_bytes()
}

/// The key that precedes the transient retrieval locator in the backend's
/// file-resolution response envelope.
pub open spec fn file_path_pattern() -> Seq<u8> {
    "\"file_path\":\"".spec_bytes()
}

/// The remote-blob protocol client: it builds the request of each protocol
/// step against the backend's URL scheme, draws a fresh one-shot credential
/// from its scheduler for every outbound call, and interprets the backend's
/// responses. It performs no retry of its own: every failure surfaces to the
/// caller.
pub struct TelegramBotApi {
    pub base_url: String,
    pub scheduler: WorkerPool,
}

/// A prepared chunk-upload call: where to send the multipart request, the
/// form value carrying the canonical destination id, and the worker whose
/// outcome must be reported back.
#[derive(Debug)]
pub struct UploadRequest {
    pub url: String,
    pub chat_id_field: String,
    pub worker_id: u64,
}

/// A prepared phase-1 download call: where to resolve an object id into a
/// transient retrieval locator.
#[derive(Debug)]
pub struct GetFileRequest {
    pub url: String,
    pub worker_id: u64,
}

/// A prepared phase-2 download call: where to fetch the raw bytes.
#[derive(Debug)]
pub struct FetchRequest {
    pub url: String,
    pub worker_id: u64,
}

impl TelegramBotApi {
    /// A client over the backend at `base_url`, drawing credentials from
    /// the given scheduler.
    pub fn new(base_url: String, scheduler: WorkerPool) -> (r: Self)
        ensures
            r.base_url == base_url,
            r.scheduler == scheduler,
    {
        Self { base_url, scheduler }
    }

    /// The URL of one call: base address, optional prefix, the bot
    /// credential and the relative part. The token is taken by value so
    /// that a credential's material is consumed by the one URL it builds.
    pub fn build_url(&self, pre: &str, relative: &str, token: String) -> (r: String)
        ensures
            r@ == self.base_url@ + "/"@ + pre@ + "bot"@ + token@ + "/"@ + relative@,
    {
        let mut url = self.base_url.clone();
        url.append("/");
        url.append(pre);
        url.append("bot");
        url.append(token.as_str());
        url.append("/");
        url.append(relative);
        url
    }

    /// Prepares a chunk upload: canonicalizes the destination id, draws a
    /// fresh one-shot credential, and builds the sendDocument URL together
    /// with the destination form value. The destination id is canonicalized
    /// on every call, never cached. Fails with `NoWorkersAvailable` exactly
    /// when no worker is healthy at `now`.
    pub fn prepare_upload(&mut self, chat_id: i64, now: u64) -> (r: Result<
        UploadRequest,
        PentaractError,
    >)
        requires
            old(self).scheduler.wf(),
            old(self).scheduler.issued < u64::MAX,
            chat_id_is_canonical(chat_id as int) || (-10000000000000000 < chat_id
                < 10000000000000000),
        ensures
            final(self).scheduler.wf(),
            final(self).base_url == old(self).base_url,
            final(self).scheduler.workers == old(self).scheduler.workers,
            r is Ok <==> old(self).scheduler.some_healthy(now),
            r matches Ok(req) ==> {
                &&& req.chat_id_field@ == dec_str_i64(canonical_chat_id(chat_id as int))
                &&& final(self).scheduler.issued == old(self).scheduler.issued + 1
                &&& exists|i: int|
                    0 <= i < old(self).scheduler.workers@.len() && worker_healthy(
                        old(self).scheduler.workers@[i],
                        now,
                    ) && req.worker_id == old(self).scheduler.workers@[i].id && req.url@ == old(
                        self,
                    ).base_url@ + "/"@ + ""@ + "bot"@ + old(self).scheduler.workers@[i].token@
                        + "/"@ + "sendDocument"@
            },
            r matches Err(e) ==> e is NoWorkersAvailable,
    {
        let canon = canonicalize(chat_id);
        let chat_id_field = i64_to_dec_string(canon);
        let cred = match self.scheduler.acquire(now) {
            Ok(c) => c,
            Err(e) => {
                return Err(e);
            },
        };
        let worker_id = cred.worker_id;
        let url = self.build_url("", "sendDocument", cred.token);
        Ok(UploadRequest { url, chat_id_field, worker_id })
    }

    /// Interprets the backend's upload response: with a success status the
    /// stored object id is read out of the response envelope; any other
    /// status — and a success whose envelope carries no id — surfaces
    /// unchanged as `RemoteAPIError` with the status and body.
    pub fn upload_outcome(status: u16, body: Vec<u8>) -> (r: Result<Vec<u8>, PentaractError>)
        ensures
            r is Ok <==> (STATUS_OK_LOW <= status < STATUS_OK_HIGH && spec_extract_quoted(
                body@,
                upload_id_pattern(),
            ) is Some),
            r matches Ok(id) ==> spec_extract_quoted(body@, upload_id_pattern()) == Some(id@),
            r matches Err(e) ==> e matches PentaractError::RemoteAPIError { status: st, body: b }
                && st == status && b@ == body@,
    {
        if status >= STATUS_OK_LOW && status < STATUS_OK_HIGH {
            let pat = "\"file_id\":\"".as_bytes_vec();
            match extract_quoted(&body, &pat) {
                Some(id) => Ok(id),
                None => Err(PentaractError::RemoteAPIError { status, body }),
            }
        } else {
            Err(PentaractError::RemoteAPIError { status, body })
        }
    }

    /// Prepares phase 1 of a chunk download: where to resolve the object id
    /// into a transient retrieval locator, under its own fresh credential.
    pub fn prepare_get_file(&mut self, now: u64) -> (r: Result<GetFileRequest, PentaractError>)
        requires
            old(self).scheduler.wf(),
            old(self).scheduler.issued < u64::MAX,
        ensures
            final(self).scheduler.wf(),
            final(self).base_url == old(self).base_url,
            final(self).scheduler.workers == old(self).scheduler.workers,
            r is Ok <==> old(self).scheduler.some_healthy(now),
            r matches Ok(req) ==> {
                &&& final(self).scheduler.issued == old(self).scheduler.issued + 1
                &&& exists|i: int|
                    0 <= i < old(self).scheduler.workers@.len() && worker_healthy(
                        old(self).scheduler.workers@[i],
                        now,
                    ) && req.worker_id == old(self).scheduler.workers@[i].id && req.url@ == old(
                        self,
                    ).base_url@ + "/"@ + ""@ + "bot"@ + old(self).scheduler.workers@[i].token@
                        + "/"@ + "getFile"@
            },
            r matches Err(e) ==> e is NoWorkersAvailable,
    {
        let cred = match self.scheduler.acquire(now) {
            Ok(c) => c,
            Err(e) => {
                return Err(e);
            },
        };
        let worker_id = cred.worker_id;
        let url = self.build_url("", "getFile", cred.token);
        Ok(GetFileRequest { url, worker_id })
    }

    /// Interprets the phase-1 response: with a success status the transient
    /// retrieval locator is read out of the envelope; anything else
    /// surfaces unchanged as `RemoteAPIError`.
    pub fn get_file_outcome(status: u16, body: Vec<u8>) -> (r: Result<Vec<u8>, PentaractError>)
        ensures
            r is Ok <==> (STATUS_OK_LOW <= status < STATUS_OK_HIGH && spec_extract_quoted(
                body@,
                file_path_pattern(),
            ) is Some),
            r matches Ok(fp) ==> spec_extract_quoted(body@, file_path_pattern()) == Some(fp@),
            r matches Err(e) ==> e matches PentaractError::RemoteAPIError { status: st, body: b }
                && st == status && b@ == body@,
    {
        if status >= STATUS_OK_LOW && status < STATUS_OK_HIGH {
            let pat = "\"file_path\":\"".as_bytes_vec();
            match extract_quoted(&body, &pat) {
                Some(fp) => Ok(fp),
                None => Err(PentaractError::RemoteAPIError { status, body }),
            }
        } else {
            Err(PentaractError::RemoteAPIError { status, body })
        }
    }

    /// Prepares phase 2 of a chunk download: where to fetch the raw bytes
    /// of the resolved locator. A fresh credential is drawn for this phase;
    /// the phase-1 credential is never reused.
    pub fn prepare_fetch(&mut self, file_path: &str, now: u64) -> (r: Result<
        FetchRequest,
        PentaractError,
    >)
        requires
            old(self).scheduler.wf(),
            old(self).scheduler.issued < u64::MAX,
        ensures
            final(self).scheduler.wf(),
            final(self).base_url == old(self).base_url,
            final(self).scheduler.workers == old(self).scheduler.workers,
            r is Ok <==> old(self).scheduler.some_healthy(now),
            r matches Ok(req) ==> {
                &&& final(self).scheduler.issued == old(self).scheduler.issued + 1
                &&& exists|i: int|
                    0 <= i < old(self).scheduler.workers@.len() && worker_healthy(
                        old(self).scheduler.workers@[i],
                        now,
                    ) && req.worker_id == old(self).scheduler.workers@[i].id && req.url@ == old(
                        self,
                    ).base_url@ + "/"@ + "file/"@ + "bot"@ + old(
                        self,
                    ).scheduler.workers@[i].token@ + "/"@ + file_path@
            },
            r matches Err(e) ==> e is NoWorkersAvailable,
    {
        let cred = match self.scheduler.acquire(now) {
            Ok(c) => c,
            Err(e) => {
                return Err(e);
            },
        };
        let worker_id = cred.worker_id;
        let url = self.build_url("file/", file_path, cred.token);
        Ok(FetchRequest { url, worker_id })
    }

    /// Interprets the phase-2 response: the raw body is the chunk's bytes
    /// on a success status, and anything else surfaces unchanged as
    /// `RemoteAPIError`.
    pub fn fetch_outcome(status: u16, body: Vec<u8>) -> (r: Result<Vec<u8>, PentaractError>)
        ensures
            r is Ok <==> STATUS_OK_LOW <= status < STATUS_OK_HIGH,
            r matches Ok(bytes) ==> bytes@ == body@,
            r matches Err(e) ==> e matches PentaractError::RemoteAPIError { status: st, body: b }
                && st == status && b@ == body@,
    {
        if status >= STATUS_OK_LOW && status < STATUS_OK_HIGH {
            Ok(body)
        } else {
            Err(PentaractError::RemoteAPIError { status, body })
        }
    }
}

} // verus!
